//! Accesses of the processor to the windows of the devices.
//!
//! The engine asks before it reads or writes in a window. The memory protection unit comes
//! first: a forbidden access is noted and blocked. A permitted read brings the value that the
//! memory behind the window is to show; a permitted write goes to the device.
use crate::bits;
use crate::bus;
use crate::bus::BusView;
use crate::device::{Device, DeviceView};
use crate::machine::board;
use crate::machine::board::{Board, BoardView};
use crate::machine::layout;
use crate::machine::layout::{
    DEVICE_COUNT, DWT_BASE, PERIPH_BASE, PERIPH_SIZE, PLACE_FSMC, SCB_BASE, USB_OTG_FS_BASE,
};
use crate::peripheral::dma;
use crate::peripheral::dma::{DMA1_BASE, DMA2_BASE};
use crate::peripheral::fsmc::{
    FSMC_BANK1_BASE, FSMC_BANK2_BASE, FSMC_BANK3_BASE, FSMC_BANK4_BASE, FSMC_BASE,
};
use crate::peripheral::mpu;
use crate::peripheral::mpu::Access;
use crate::peripheral::{BusError, Peripheral};
use crate::wires::WiresView;
use vstd::prelude::*;

verus! {

/// The control register of the system timer.
pub const SYST_CSR: u32 = 0xE000_E010;

/// The control register of the cycle counter.
pub const DWT_CTRL: u32 = 0xE000_1000;

/// The outcome of an access.
#[derive(Debug, Clone, Copy, PartialEq, Eq, Structural)]
pub enum Answer {
    /// The memory protection unit forbids it, and the engine is to stop.
    Blocked,
    /// The memory behind the window answers as it is.
    Plain,
    /// The memory behind the window is to show this value first.
    Value(u32),
}

pub open spec fn within(addr: u32, base: u32, size: int) -> bool {
    base <= addr < base + size
}

fn is_within(addr: u32, base: u32, size: u32) -> (r: bool)
    requires
        base + size <= u32::MAX,
    ensures
        r == within(addr, base, size as int),
{
    base <= addr && addr < base + size
}

/// The windows of the external memory banks.
pub open spec fn in_bank(addr: u32) -> bool {
    ||| within(addr, FSMC_BANK1_BASE, 0x1_0000)
    ||| within(addr, FSMC_BANK2_BASE, 0x1_0000)
    ||| within(addr, FSMC_BANK3_BASE, 0x1_0000)
    ||| within(addr, FSMC_BANK4_BASE, 0x1_0000)
}

/// The debug counters are outside what the memory protection unit covers.
pub open spec fn in_debug(addr: u32) -> bool {
    within(addr, DWT_BASE, 0x1000)
}

/// Does the board answer at this address?
pub open spec fn watched(addr: u32) -> bool {
    ||| within(addr, SCB_BASE, 0x1000)
    ||| in_debug(addr)
    ||| within(addr, PERIPH_BASE, PERIPH_SIZE as int)
    ||| within(addr, USB_OTG_FS_BASE, 0x5000)
    ||| within(addr, 0x5006_0800, 0x100)
    ||| within(addr, 0x5005_0000, 0x40)
    ||| within(addr, FSMC_BASE, 0x200)
    ||| in_bank(addr)
}

/// The devices of the peripheral area that may need ticks: the timers, the DAC, the DMA
/// controllers, the watchdogs and the clock.
pub open spec fn in_tick_region(addr: u32) -> bool {
    ||| within(addr, 0x4001_0000, 0x800)
    ||| within(addr, 0x4000_0000, 0x2400)
    ||| within(addr, 0x4001_4000, 0xC00)
    ||| within(addr, 0x4000_7400, 0x400)
    ||| within(addr, DMA1_BASE, 0x400)
    ||| within(addr, DMA2_BASE, 0x400)
    ||| within(addr, 0x4000_2800, 0xC00)
}

/// Does a write wake a device up?
pub open spec fn wakes(addr: u32, value: u32) -> bool {
    ||| in_tick_region(addr)
    ||| (addr == SYST_CSR || addr == DWT_CTRL) && value & 1 != 0
}

pub fn is_bank(addr: u32) -> (r: bool)
    ensures
        r == in_bank(addr),
{
    is_within(addr, FSMC_BANK1_BASE, 0x1_0000) || is_within(addr, FSMC_BANK2_BASE, 0x1_0000)
        || is_within(addr, FSMC_BANK3_BASE, 0x1_0000) || is_within(addr, FSMC_BANK4_BASE, 0x1_0000)
}

pub fn is_watched(addr: u32) -> (r: bool)
    ensures
        r == watched(addr),
{
    is_within(addr, SCB_BASE, 0x1000) || is_within(addr, DWT_BASE, 0x1000) || is_within(
        addr,
        PERIPH_BASE,
        PERIPH_SIZE,
    ) || is_within(addr, USB_OTG_FS_BASE, 0x5000) || is_within(addr, 0x5006_0800, 0x100)
        || is_within(addr, 0x5005_0000, 0x40) || is_within(addr, FSMC_BASE, 0x200) || is_bank(addr)
}

fn does_wake(addr: u32, value: u32) -> (r: bool)
    ensures
        r == wakes(addr, value),
{
    is_within(addr, 0x4001_0000, 0x800) || is_within(addr, 0x4000_0000, 0x2400) || is_within(
        addr,
        0x4001_4000,
        0xC00,
    ) || is_within(addr, 0x4000_7400, 0x400) || is_within(addr, DMA1_BASE, 0x400) || is_within(
        addr,
        DMA2_BASE,
        0x400,
    ) || is_within(addr, 0x4000_2800, 0xC00) || ((addr == SYST_CSR || addr == DWT_CTRL) && value & 1
        != 0)
}

/// The `size` lowest bytes of a value, as memory shows them.
pub open spec fn low_bytes(v: u32, size: int) -> Seq<u8> {
    Seq::new(size as nat, |i: int| bits::byte_at(v, i as u32))
}

/// The bytes that the memory behind a window is to show.
pub fn shown_bytes(v: u32, size: u32) -> (r: Vec<u8>)
    requires
        size <= 4,
    ensures
        r@ == low_bytes(v, size as int),
{
    let mut out: Vec<u8> = Vec::new();
    let mut i: u32 = 0;
    while i < size
        invariant
            i <= size,
            size <= 4,
            out@ == low_bytes(v, i as int),
        decreases size - i,
    {
        out.push(bits::byte_of(v, i));
        assert(out@ =~= low_bytes(v, i + 1));
        i = i + 1;
    }
    out
}

impl BoardView {
    /// Is the access forbidden?
    pub open spec fn forbidden(self, addr: u32, access: Access, privileged: bool) -> bool {
        !self.w.mpu.permits(addr, access, privileged)
    }

    /// A forbidden access is noted.
    pub open spec fn faulted(self, addr: u32, access: Access) -> BoardView {
        BoardView {
            w: WiresView {
                mpu: self.w.mpu.record_violation(mpu::fault_of(addr, access)),
                ..self.w
            },
            ..self
        }
    }

    /// Do the devices take this read?
    pub open spec fn takes_read(self, addr: u32, size: u32) -> bool {
        size <= 4 && bus::bus_readable::<Device>(self.bus, self.w, addr, size)
    }

    /// Do the devices take this write?
    pub open spec fn takes_write(self, addr: u32, size: u32, value: u32) -> bool {
        size <= 4 && bus::bus_writable::<Device>(self.bus, self.w, addr, size, value)
    }

    /// The processor reads.
    pub open spec fn read_by(self, privileged: bool, addr: u32, size: u32) -> (BoardView, Answer) {
        if !watched(addr) {
            (self, Answer::Plain)
        } else if !in_debug(addr) && self.forbidden(addr, Access::Read, privileged) {
            (self.faulted(addr, Access::Read), Answer::Blocked)
        } else if in_bank(addr) {
            match self.bus.devices[PLACE_FSMC as int] {
                DeviceView::Fsmc(d) => (self, Answer::Value(d.window_read(addr, size))),
                _ => (self, Answer::Plain),
            }
        } else {
            let (bus, w, r) = bus::bus_read::<Device>(self.bus, self.w, addr, size);
            (
                BoardView { bus, w, ..self }.settled(),
                match r {
                    Ok(v) => Answer::Value(v),
                    Err(_) => Answer::Plain,
                },
            )
        }
    }

    /// The processor writes. What the device says to it does not matter: the memory behind the
    /// window takes the value anyway.
    pub open spec fn written_by(self, privileged: bool, addr: u32, size: u32, value: u32) -> (
        BoardView,
        Answer,
    ) {
        if !watched(addr) {
            (self, Answer::Plain)
        } else if !in_debug(addr) && self.forbidden(addr, Access::Write, privileged) {
            (self.faulted(addr, Access::Write), Answer::Blocked)
        } else if in_bank(addr) {
            match self.bus.devices[PLACE_FSMC as int] {
                DeviceView::Fsmc(d) => (
                    self.with_device(
                        PLACE_FSMC as int,
                        DeviceView::Fsmc(d.window_write(addr, size, value)),
                        self.w,
                    ),
                    Answer::Plain,
                ),
                _ => (self, Answer::Plain),
            }
        } else {
            let (bus, w, r) = bus::bus_write::<Device>(self.bus, self.w, addr, size, value);
            (
                BoardView {
                    bus,
                    w,
                    any_active: self.any_active || wakes(addr, value),
                    ..self
                }.settled(),
                Answer::Plain,
            )
        }
    }
}

/// A device stays what it is, whatever is done to it.
pub proof fn lemma_fits_kept(i: int, d: DeviceView, w: WiresView, a: u32, n: u32, v: u32, c: u64)
    requires
        layout::fits(i, d),
        Device::inv(d),
    ensures
        layout::fits(i, Device::read_of(d, w, a, n).0),
        layout::fits(i, Device::write_of(d, w, a, n, v).0),
        layout::fits(i, Device::reset_of(d, w).0),
        layout::fits(i, Device::tick_of(d, w, c).0),
{
    match d {
        DeviceView::Dma(x) => {
            dma::lemma_tick_keeps_wiring(x, w, 8);
        },
        _ => {},
    }
}

impl Board {
    /// Is the access forbidden? If so, it is noted.
    pub fn refuse(&mut self, privileged: bool, addr: u32, access: Access) -> (r: bool)
        requires
            old(self)@.wf(),
        ensures
            r == old(self)@.forbidden(addr, access, privileged),
            !r ==> *final(self) == *old(self),
            r ==> final(self)@ == old(self)@.faulted(addr, access),
            final(self)@.wf(),
    {
        match self.wires.mpu.check(addr, access, privileged) {
            Ok(_) => false,
            Err(f) => {
                self.wires.mpu.record_violation(f);
                self.wires.shape();
                true
            },
        }
    }

    /// Does the device at the address, if there is one, take this read?
    pub fn takes_read(&self, addr: u32, size: u32) -> (r: bool)
        requires
            self@.wf(),
        ensures
            r == self@.takes_read(addr, size),
    {
        if size > 4 {
            return false;
        }
        match self.bus.place_of(addr) {
            Some((i, offset)) => self.bus.device(i).takes_read(offset, size),
            None => true,
        }
    }

    /// Does the device at the address, if there is one, take this write?
    pub fn takes_write(&self, addr: u32, size: u32, value: u32) -> (r: bool)
        requires
            self@.wf(),
        ensures
            r == self@.takes_write(addr, size, value),
    {
        if size > 4 {
            return false;
        }
        match self.bus.place_of(addr) {
            Some((i, offset)) => self.bus.device(i).takes_write(offset, size, value),
            None => true,
        }
    }

    fn bus_read(&mut self, addr: u32, size: u32) -> (r: Result<u32, BusError>)
        requires
            old(self)@.wf(),
            old(self)@.takes_read(addr, size),
        ensures
            final(self)@.wf(),
            ({
                let (bus, w, q) = bus::bus_read::<Device>(old(self)@.bus, old(self)@.w, addr, size);
                r == q && final(self)@ == BoardView { bus, w, ..old(self)@ }.settled()
            }),
    {
        let ghost b0 = self@;
        let r = self.bus.read(&mut self.wires, addr, size);
        self.wires.shape();
        proof {
            bus::lemma_hit_in_range(b0.bus, addr as int);
            if let Some(i) = b0.bus.hit(addr as int) {
                lemma_fits_kept(
                    i,
                    b0.bus.devices[i],
                    b0.w,
                    (addr - b0.bus.regions[i].base) as u32,
                    size,
                    0,
                    0,
                );
                lemma_still_placed(b0.bus, i, self.bus@.devices[i]);
            }
        }
        self.settle();
        r
    }

    fn bus_write(&mut self, addr: u32, size: u32, value: u32)
        requires
            old(self)@.wf(),
            old(self)@.takes_write(addr, size, value),
        ensures
            final(self)@.wf(),
            ({
                let (bus, w, q) = bus::bus_write::<Device>(
                    old(self)@.bus,
                    old(self)@.w,
                    addr,
                    size,
                    value,
                );
                final(self)@ == BoardView { bus, w, ..old(self)@ }.settled()
            }),
    {
        let ghost b0 = self@;
        let _ = self.bus.write(&mut self.wires, addr, size, value);
        self.wires.shape();
        proof {
            bus::lemma_hit_in_range(b0.bus, addr as int);
            if let Some(i) = b0.bus.hit(addr as int) {
                lemma_fits_kept(
                    i,
                    b0.bus.devices[i],
                    b0.w,
                    (addr - b0.bus.regions[i].base) as u32,
                    size,
                    value,
                    0,
                );
                lemma_still_placed(b0.bus, i, self.bus@.devices[i]);
            }
        }
        self.settle();
    }

    /// The processor reads at an address.
    pub fn read_by(&mut self, privileged: bool, addr: u32, size: u32) -> (r: Answer)
        requires
            old(self)@.wf(),
            old(self)@.takes_read(addr, size),
        ensures
            final(self)@.wf(),
            (final(self)@, r) == old(self)@.read_by(privileged, addr, size),
    {
        if !is_watched(addr) {
            return Answer::Plain;
        }
        if !is_within(addr, DWT_BASE, 0x1000) && self.refuse(privileged, addr, Access::Read) {
            return Answer::Blocked;
        }
        if is_bank(addr) {
            assert(layout::fits(PLACE_FSMC as int, self@.bus.devices[PLACE_FSMC as int]));
            assert(Device::inv(self@.bus.devices[PLACE_FSMC as int]));
            return match self.bus.device(PLACE_FSMC) {
                Device::Fsmc(d) => Answer::Value(d.window_read(addr, size)),
                _ => Answer::Plain,
            };
        }
        match self.bus_read(addr, size) {
            Ok(v) => Answer::Value(v),
            Err(_) => Answer::Plain,
        }
    }

    /// The processor writes at an address.
    pub fn written_by(&mut self, privileged: bool, addr: u32, size: u32, value: u32) -> (r: Answer)
        requires
            old(self)@.wf(),
            old(self)@.takes_write(addr, size, value),
        ensures
            final(self)@.wf(),
            (final(self)@, r) == old(self)@.written_by(privileged, addr, size, value),
    {
        if !is_watched(addr) {
            return Answer::Plain;
        }
        if !is_within(addr, DWT_BASE, 0x1000) && self.refuse(privileged, addr, Access::Write) {
            return Answer::Blocked;
        }
        if is_bank(addr) {
            let ghost b0 = self@;
            assert(layout::fits(PLACE_FSMC as int, b0.bus.devices[PLACE_FSMC as int]));
            assert(Device::inv(b0.bus.devices[PLACE_FSMC as int]));
            match self.bus.device_mut(PLACE_FSMC) {
                Device::Fsmc(d) => {
                    d.window_write(addr, size, value);
                },
                _ => {},
            }
            proof {
                board::lemma_placed(
                    b0.bus,
                    PLACE_FSMC as int,
                    self.bus@.devices[PLACE_FSMC as int],
                );
            }
            return Answer::Plain;
        }
        if does_wake(addr, value) {
            self.any_active = true;
        }
        self.bus_write(addr, size, value);
        Answer::Plain
    }
}

/// A device that stays what it is stays in its place.
pub proof fn lemma_still_placed(b: BusView<DeviceView>, i: int, d: DeviceView)
    requires
        board::bus_wf(b),
        0 <= i < DEVICE_COUNT,
        layout::fits(i, d),
    ensures
        bus::bus_inv::<Device>(b.with_device(i, d)) ==> board::bus_wf(b.with_device(i, d)),
{
    let b1 = b.with_device(i, d);
    assert forall|k: int| 0 <= k < DEVICE_COUNT implies layout::fits(k, #[trigger] b1.devices[k]) by {
        if k != i {
            assert(b1.devices[k] == b.devices[k]);
        }
    }
}

/// A forbidden access reaches no device: nothing but the fault record of the memory protection
/// unit changes. It is blocked if and only if the unit forbids it; the debug counters, and
/// everything while the unit is off, are never blocked.
pub proof fn law_forbidden_access_reaches_no_device(
    b: BoardView,
    privileged: bool,
    addr: u32,
    size: u32,
    value: u32,
)
    ensures
        ({
            let (r, got) = b.read_by(privileged, addr, size);
            let (w, done) = b.written_by(privileged, addr, size, value);
            &&& (got is Blocked) == (watched(addr) && !in_debug(addr) && b.forbidden(
                addr,
                Access::Read,
                privileged,
            ))
            &&& (done is Blocked) == (watched(addr) && !in_debug(addr) && b.forbidden(
                addr,
                Access::Write,
                privileged,
            ))
            &&& got is Blocked ==> r == b.faulted(addr, Access::Read) && r.bus == b.bus
            &&& done is Blocked ==> w == b.faulted(addr, Access::Write) && w.bus == b.bus
            &&& !b.w.mpu.is_enabled() ==> !(got is Blocked) && !(done is Blocked)
        }),
{
}

/// The board answers in the system control space, for the debug counters, in the peripheral area,
/// for the USB controller, the random number generator, the camera and the memory controller, and
/// in the four windows of the outside memory. An access anywhere else changes nothing.
pub proof fn law_where_the_board_answers(
    b: BoardView,
    privileged: bool,
    addr: u32,
    size: u32,
    value: u32,
)
    ensures
        !(0xE000_E000 <= addr < 0xE000_F000 || 0xE000_1000 <= addr < 0xE000_2000 || 0x4000_0000
            <= addr < 0x4004_0000 || 0x5000_0000 <= addr < 0x5000_5000 || 0x5006_0800 <= addr
            < 0x5006_0900 || 0x5005_0000 <= addr < 0x5005_0040 || 0xA000_0000 <= addr < 0xA000_0200
            || 0x6000_0000 <= addr < 0x6001_0000 || 0x6400_0000 <= addr < 0x6401_0000 || 0x6800_0000
            <= addr < 0x6801_0000 || 0x6C00_0000 <= addr < 0x6C01_0000) ==> b.read_by(
            privileged,
            addr,
            size,
        ) == (b, Answer::Plain) && b.written_by(privileged, addr, size, value) == (b, Answer::Plain),
        0xE000_1000 <= addr < 0xE000_2000 ==> !(b.read_by(privileged, addr, size).1 is Blocked)
            && !(b.written_by(privileged, addr, size, value).1 is Blocked),
        (0xE000_E000 <= addr < 0xE000_F000 || 0x4000_0000 <= addr < 0x4004_0000 || 0x5000_0000
            <= addr < 0x5000_5000 || 0x5006_0800 <= addr < 0x5006_0900 || 0x5005_0000 <= addr
            < 0x5005_0040 || 0xA000_0000 <= addr < 0xA000_0200 || 0x6000_0000 <= addr < 0x6001_0000
            || 0x6400_0000 <= addr < 0x6401_0000 || 0x6800_0000 <= addr < 0x6801_0000 || 0x6C00_0000
            <= addr < 0x6C01_0000) ==> {
            &&& (b.read_by(privileged, addr, size).1 is Blocked) == !b.w.mpu.permits(
                addr,
                Access::Read,
                privileged,
            )
            &&& (b.written_by(privileged, addr, size, value).1 is Blocked) == !b.w.mpu.permits(
                addr,
                Access::Write,
                privileged,
            )
        },
{
}

/// A permitted read in the region of a device shows the value that the device answers with, at
/// the offset from the base of the region; where the device has no answer, memory shows what it
/// holds.
pub proof fn law_read_shows_the_device(
    b: BoardView,
    privileged: bool,
    addr: u32,
    size: u32,
    i: int,
)
    requires
        b.wf(),
        0 <= i < 36,
        layout::region(i).0 <= addr < layout::region(i).0 + layout::region(i).1,
        i == 1 || b.w.mpu.permits(addr, Access::Read, privileged),
    ensures
        ({
            let answer = Device::read_of(
                b.bus.devices[i],
                b.w,
                (addr - layout::region(i).0) as u32,
                size,
            ).2;
            b.read_by(privileged, addr, size).1 == match answer {
                Ok(v) => Answer::Value(v),
                Err(_) => Answer::Plain,
            }
        }),
{
    assert(b.bus.regions[i] == board::region_view(i));
    bus::law_lookup_is_exact(b.bus, addr as int, i);
    layout::law_device_addresses();
    if 3 <= i < 12 {
        assert(layout::region(3 + (i - 3)).0 == 0x4002_0000 + 0x400 * (i - 3));
    }
}

/// What is written in a window of the outside memory can be read there, lowest byte first, while
/// the bank is on; no device but the memory controller changes.
pub proof fn law_outside_memory(
    b: BoardView,
    privileged: bool,
    bank: int,
    off: int,
    value: u32,
)
    requires
        b.wf(),
        0 <= bank < 4,
        0 <= off <= 0xFFFC,
        b.bus.devices[25]->Fsmc_0.regs[bank] & 1 != 0,
        b.w.mpu.permits(
            (0x6000_0000 + 0x400_0000 * bank + off) as u32,
            Access::Read,
            privileged,
        ),
        b.w.mpu.permits(
            (0x6000_0000 + 0x400_0000 * bank + off) as u32,
            Access::Write,
            privileged,
        ),
    ensures
        ({
            let a = (0x6000_0000 + 0x400_0000 * bank + off) as u32;
            let t = b.written_by(privileged, a, 4, value).0;
            &&& t.read_by(privileged, a, 4).1 == Answer::Value(value)
            &&& t.read_by(privileged, a, 1).1 == Answer::Value(value % 256)
            &&& forall|k: int|
                0 <= k < 36 && k != 25 ==> #[trigger] t.bus.devices[k] == b.bus.devices[k]
        }),
{
    let a = (0x6000_0000 + 0x400_0000 * bank + off) as u32;
    let d = b.bus.devices[25]->Fsmc_0;
    assert(layout::fits(25, b.bus.devices[25]));
    assert(Device::inv(b.bus.devices[25]));
    crate::peripheral::fsmc::law_window_write(d, bank, off, 4, value);
    crate::peripheral::fsmc::law_window_place(d.window_write(a, 4, value), bank, off);
    let v = value;
    assert(v == v % 256 + 0x100 * ((v / 0x100) % 256) + 0x1_0000 * ((v / 0x1_0000) % 256)
        + 0x100_0000 * (v / 0x100_0000));
}

/// The memory behind a window shows a value lowest byte first.
pub proof fn law_shown_bytes(v: u32)
    ensures
        low_bytes(v, 1) == seq![(v % 256) as u8],
        low_bytes(v, 2) == seq![(v % 256) as u8, ((v / 0x100) % 256) as u8],
        low_bytes(v, 4) == seq![
            (v % 256) as u8,
            ((v / 0x100) % 256) as u8,
            ((v / 0x1_0000) % 256) as u8,
            (v / 0x100_0000) as u8,
        ],
{
    bits::law_bytes_are_digits(v, 0, 0, 0, 0);
}

/// A write to a timer, to the DAC, to a transfer controller, to the clock or to a watchdog wakes
/// the board up, and so does one that switches on the system timer or the cycle counter.
pub proof fn law_what_wakes_the_board(addr: u32, value: u32)
    ensures
        wakes(addr, value) <==> {
            ||| 0x4000_0000 <= addr < 0x4000_2400
            ||| 0x4000_2800 <= addr < 0x4000_3400
            ||| 0x4000_7400 <= addr < 0x4000_7800
            ||| 0x4001_0000 <= addr < 0x4001_0800
            ||| 0x4001_4000 <= addr < 0x4001_4C00
            ||| 0x4002_6000 <= addr < 0x4002_6800
            ||| addr == 0xE000_E010 && value & 1 != 0
            ||| addr == 0xE000_1000 && value & 1 != 0
        },
{
}

/// A permitted write in the region of a device changes the device as it says itself, at the offset
/// from the base of the region, and with what it does to the wires; where it published nothing,
/// no other device changes.
pub proof fn law_write_reaches_the_device(
    b: BoardView,
    privileged: bool,
    addr: u32,
    size: u32,
    value: u32,
    i: int,
)
    requires
        b.wf(),
        0 <= i < 36,
        layout::region(i).0 <= addr < layout::region(i).0 + layout::region(i).1,
        i == 1 || b.w.mpu.permits(addr, Access::Write, privileged),
        b.w.events.cursors.len() > 0,
    ensures
        ({
            let (d, w, r) = Device::write_of(
                b.bus.devices[i],
                b.w,
                (addr - layout::region(i).0) as u32,
                size,
                value,
            );
            let (t, done) = b.written_by(privileged, addr, size, value);
            &&& done is Plain
            &&& w.events.cursors.len() > 0 && w.events.inbox(0).len() == 0 ==> {
                &&& t.bus.devices[i] == d
                &&& forall|k: int|
                    0 <= k < 36 && k != i ==> #[trigger] t.bus.devices[k] == b.bus.devices[k]
                &&& t.w.nvic == w.nvic && t.w.mpu == w.mpu && t.w.exti == w.exti && t.w.reset
                    == w.reset && t.w.backup_writable == w.backup_writable
                &&& t.any_active == (b.any_active || wakes(addr, value))
                &&& t.console == b.console
            }
        }),
{
    assert(b.bus.regions[i] == board::region_view(i));
    bus::law_lookup_is_exact(b.bus, addr as int, i);
    layout::law_device_addresses();
    if 3 <= i < 12 {
        assert(layout::region(3 + (i - 3)).0 == 0x4002_0000 + 0x400 * (i - 3));
    }
}

} // verus!
