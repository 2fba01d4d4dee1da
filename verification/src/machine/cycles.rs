//! What the devices do while time passes: they count cycles, and the DMA controllers carry
//! out the transfers that were noted.
use crate::bus::BusView;
use crate::device;
use crate::device::{Device, DeviceView};
use crate::machine::access;
use crate::machine::board;
use crate::machine::board::{Board, BoardView};
use crate::machine::layout;
use crate::machine::layout::{
    DEVICE_COUNT, PLACE_CAN1, PLACE_DAC, PLACE_DMA1, PLACE_DMA2, PLACE_DWT, PLACE_RTC, PLACE_SCB,
};
use crate::memory::GuestMemory;
use crate::peripheral::dma;
use crate::peripheral::dma::{DmaByteIo, DmaView, DmaWorld};
use crate::peripheral::flash;
use crate::peripheral::flash::Flash;
use crate::peripheral::Peripheral;
use crate::wires::WiresView;
use vstd::prelude::*;

verus! {

/// The noted transfers of a controller stay within the address space.
pub open spec fn all_fit(d: DmaView) -> bool {
    forall|s: int| 0 <= s < 8 ==> #[trigger] d.transfer_fits(s)
}

impl BoardView {
    /// Device `i` counts cycles, if it needs them.
    pub open spec fn ticked_one(self, i: int, cycles: u64) -> BoardView {
        if device::device_active(self.bus.devices[i]) {
            let (d, w) = Device::tick_of(self.bus.devices[i], self.w, cycles);
            self.with_device(i, d, w)
        } else {
            self
        }
    }

    /// All devices count cycles: the system timer those of the processor, the others those of
    /// the timer clock.
    pub open spec fn ticked(self, raw: u64, timer: u64) -> BoardView {
        let b = self.ticked_one(PLACE_SCB as int, raw).ticked_one(PLACE_DWT as int, timer);
        let b = b.ticked_one(PLACE_DAC as int, timer);
        let b = b.ticked_one(PLACE_DMA1 as int, timer).ticked_one(PLACE_DMA2 as int, timer);
        b.ticked_one(PLACE_RTC as int, timer).settled()
    }

    /// Does the clock have room for this many cycles?
    pub open spec fn takes_tick(self, timer: u64) -> bool {
        match self.bus.devices[PLACE_RTC as int] {
            DeviceView::Rtc(d) => d.room_for(timer),
            _ => true,
        }
    }

    /// How many devices need ticks.
    pub open spec fn active_among(self, n: int) -> int
        decreases n,
    {
        if n <= 0 {
            0
        } else {
            self.active_among(n - 1) + if device::device_active(self.bus.devices[n - 1]) {
                1int
            } else {
                0
            }
        }
    }

    /// The controller in a place.
    pub open spec fn dma(self, place: int) -> DmaView {
        self.bus.devices[place]->Dma_0
    }

    /// Does a transfer wait?
    pub open spec fn dma_waits(self) -> bool {
        self.dma(PLACE_DMA1 as int).pending_transfer != 0 || self.dma(
            PLACE_DMA2 as int,
        ).pending_transfer != 0
    }

    /// Do the noted transfers of both controllers stay within the address space?
    pub open spec fn transfers_fit(self) -> bool {
        all_fit(self.dma(PLACE_DMA1 as int)) && all_fit(self.dma(PLACE_DMA2 as int))
    }

    /// The controller in a place carries out its transfers. It is out of the row meanwhile.
    pub open spec fn pumped_one(self, place: int, mem: Map<u64, u8>) -> (BoardView, Map<u64, u8>) {
        let row = self.bus.devices.update(place, DeviceView::Flash(flash::reset_registers()));
        let x = dma::process_streams::<Device>(
            DmaWorld { dma: self.dma(place), w: self.w, mem, devs: row },
            8,
        );
        (
            BoardView {
                bus: BusView {
                    devices: x.devs.update(place, DeviceView::Dma(x.dma)),
                    ..self.bus
                },
                w: x.w,
                ..self
            },
            x.mem,
        )
    }

    /// Both controllers carry out their transfers.
    pub open spec fn pumped(self, mem: Map<u64, u8>) -> (BoardView, Map<u64, u8>) {
        let (b1, m1) = self.pumped_one(PLACE_DMA1 as int, mem);
        let (b2, m2) = b1.pumped_one(PLACE_DMA2 as int, m1);
        (b2.settled(), m2)
    }
}

/// Moving bytes does not change what a device is.
proof fn lemma_send_keeps_kind(
    i: int,
    m: Map<u64, u8>,
    d: DeviceView,
    w: WiresView,
    cr: u32,
    wide: bool,
    at: int,
    n: int,
)
    requires
        layout::fits(i, d),
    ensures
        layout::fits(i, dma::send_items::<Device>(m, d, w, cr, wide, at, n).0),
    decreases n,
{
    if n > 0 {
        lemma_send_keeps_kind(i, m, d, w, cr, wide, at, n - 1);
    }
}

proof fn lemma_receive_keeps_kind(
    i: int,
    m: Map<u64, u8>,
    d: DeviceView,
    w: WiresView,
    cr: u32,
    wide: bool,
    at: int,
    n: int,
)
    requires
        layout::fits(i, d),
    ensures
        layout::fits(i, dma::receive_items::<Device>(m, d, w, cr, wide, at, n).1),
    decreases n,
{
    if n > 0 {
        lemma_receive_keeps_kind(i, m, d, w, cr, wide, at, n - 1);
    }
}

/// Transfers leave every device but the ones that they are wired to alone, and change none
/// into another.
proof fn lemma_streams_keep_kinds(x: DmaWorld<DeviceView>, n: int)
    requires
        x.devs.len() == DEVICE_COUNT,
        x.dma.wired_within(PLACE_CAN1 as int),
        x.dma.wired.len() == 18,
        n <= 8,
        forall|i: int|
            0 <= i < PLACE_CAN1 ==> layout::fits(i, #[trigger] x.devs[i]),
    ensures
        ({
            let y = dma::process_streams::<Device>(x, n);
            &&& y.devs.len() == DEVICE_COUNT
            &&& y.dma.wired == x.dma.wired
            &&& forall|i: int| 0 <= i < PLACE_CAN1 ==> layout::fits(i, #[trigger] y.devs[i])
            &&& forall|i: int| PLACE_CAN1 <= i < DEVICE_COUNT ==> #[trigger] y.devs[i] == x.devs[i]
        }),
    decreases n,
{
    if n > 0 {
        lemma_streams_keep_kinds(x, n - 1);
        let y = dma::process_streams::<Device>(x, n - 1);
        let s = n - 1;
        let d = y.dma;
        if let Some(k) = d.device(s) {
            assert(0 <= k < PLACE_CAN1) by {
                let slot = dma::slot_of(d.pending_target[s]->0)->0;
                assert(d.wired[slot] == Some(k as usize));
            }
            lemma_send_keeps_kind(
                k,
                y.mem,
                y.devs[k],
                y.w,
                d.cr(s),
                d.wide(s),
                d.m0ar(s) as int,
                d.pending_items[s] as int,
            );
            lemma_receive_keeps_kind(
                k,
                y.mem,
                y.devs[k],
                y.w,
                d.cr(s),
                d.wide(s),
                d.m0ar(s) as int,
                d.pending_items[s] as int,
            );
        }
    }
}

/// Moving bytes raises lines and publishes events, and touches nothing else of the wires.
proof fn lemma_send_keeps_nesting(
    m: Map<u64, u8>,
    d: DeviceView,
    w: WiresView,
    cr: u32,
    wide: bool,
    at: int,
    n: int,
)
    ensures
        dma::send_items::<Device>(m, d, w, cr, wide, at, n).1.nested_as(w),
    decreases n,
{
    if n > 0 {
        lemma_send_keeps_nesting(m, d, w, cr, wide, at, n - 1);
    }
}

proof fn lemma_receive_keeps_nesting(
    m: Map<u64, u8>,
    d: DeviceView,
    w: WiresView,
    cr: u32,
    wide: bool,
    at: int,
    n: int,
)
    ensures
        dma::receive_items::<Device>(m, d, w, cr, wide, at, n).2.nested_as(w),
    decreases n,
{
    if n > 0 {
        lemma_receive_keeps_nesting(m, d, w, cr, wide, at, n - 1);
    }
}

proof fn lemma_streams_keep_nesting(x: DmaWorld<DeviceView>, n: int)
    ensures
        dma::process_streams::<Device>(x, n).w.nested_as(x.w),
    decreases n,
{
    if n > 0 {
        lemma_streams_keep_nesting(x, n - 1);
        let y = dma::process_streams::<Device>(x, n - 1);
        let s = n - 1;
        let d = y.dma;
        if let Some(k) = d.device(s) {
            let at = d.m0ar(s) as int;
            let items = d.pending_items[s] as int;
            lemma_send_keeps_nesting(y.mem, y.devs[k], y.w, d.cr(s), d.wide(s), at, items);
            lemma_receive_keeps_nesting(y.mem, y.devs[k], y.w, d.cr(s), d.wide(s), at, items);
        }
    }
}

/// The row with the controller back in its place.
proof fn lemma_row_back(b: BoardView, after: Seq<DeviceView>, place: int, x: DmaWorld<DeviceView>)
    requires
        b.wf(),
        place == PLACE_DMA1 || place == PLACE_DMA2,
        x.dma == b.dma(place),
        x.devs == b.bus.devices.update(place, DeviceView::Flash(flash::reset_registers())),
        after == dma::process_streams::<Device>(x, 8).devs,
        dma::process_streams::<Device>(x, 8).dma.wf(),
        forall|i: int| 0 <= i < after.len() ==> Device::inv(#[trigger] after[i]),
    ensures
        ({
            let y = dma::process_streams::<Device>(x, 8);
            let bus = BusView { devices: after.update(place, DeviceView::Dma(y.dma)), ..b.bus };
            &&& board::bus_wf(bus)
            &&& forall|i: int|
                PLACE_CAN1 <= i < DEVICE_COUNT && i != place ==> #[trigger] bus.devices[i]
                    == b.bus.devices[i]
        }),
{
    let y = dma::process_streams::<Device>(x, 8);
    assert(layout::fits(place, b.bus.devices[place]));
    assert(Device::inv(b.bus.devices[place]));
    assert forall|i: int| 0 <= i < PLACE_CAN1 implies layout::fits(i, #[trigger] x.devs[i]) by {
        assert(x.devs[i] == b.bus.devices[i]);
    }
    lemma_streams_keep_kinds(x, 8);
    let bus = BusView { devices: after.update(place, DeviceView::Dma(y.dma)), ..b.bus };
    assert forall|i: int| 0 <= i < DEVICE_COUNT implies layout::fits(i, #[trigger] bus.devices[i]) by {
        if i == place {
            assert(y.dma.wired_within(PLACE_CAN1 as int)) by {
                assert forall|k: int| 0 <= k < y.dma.wired.len() implies (
                #[trigger] y.dma.wired[k] matches Some(j) ==> j < PLACE_CAN1) by {
                    assert(x.dma.wired[k] == y.dma.wired[k]);
                }
            }
        } else if i < PLACE_CAN1 {
            assert(bus.devices[i] == y.devs[i]);
        } else {
            assert(bus.devices[i] == y.devs[i]);
            assert(y.devs[i] == x.devs[i]);
            assert(layout::fits(i, b.bus.devices[i]));
        }
    }
    assert forall|i: int| PLACE_CAN1 <= i < DEVICE_COUNT && i != place implies #[trigger] bus.devices[i]
        == b.bus.devices[i] by {
        assert(bus.devices[i] == y.devs[i]);
        assert(y.devs[i] == x.devs[i]);
    }
    assert forall|i: int| 0 <= i < bus.devices.len() implies Device::inv(
        #[trigger] bus.devices[i],
    ) by {
        if i != place {
            assert(bus.devices[i] == after[i]);
        }
    }
}

impl Board {
    fn tick_one(&mut self, i: usize, cycles: u64)
        requires
            old(self)@.wf(),
            i < DEVICE_COUNT,
            Device::tickable(old(self)@.bus.devices[i as int], old(self)@.w, cycles),
        ensures
            final(self)@.wf(),
            final(self)@ == old(self)@.ticked_one(i as int, cycles),
    {
        let ghost b0 = self@;
        if self.bus.device(i).active() {
            self.bus.tick_device(&mut self.wires, i, cycles);
            self.wires.shape();
            proof {
                access::lemma_fits_kept(i as int, b0.bus.devices[i as int], b0.w, 0, 0, 0, cycles);
                access::lemma_still_placed(b0.bus, i as int, self.bus@.devices[i as int]);
            }
        }
    }

    /// Does the clock have room for this many cycles?
    pub fn takes_tick(&self, timer: u64) -> (r: bool)
        requires
            self@.wf(),
        ensures
            r == self@.takes_tick(timer),
    {
        assert(layout::fits(PLACE_RTC as int, self@.bus.devices[PLACE_RTC as int]));
        let r = self.bus.device(PLACE_RTC).takes_tick(timer);
        assert(r == Device::tickable(self@.bus.devices[PLACE_RTC as int], self@.w, timer));
        r
    }

    /// All devices count cycles.
    pub fn tick(&mut self, raw: u64, timer: u64)
        requires
            old(self)@.wf(),
            old(self)@.takes_tick(timer),
        ensures
            final(self)@.wf(),
            final(self)@ == old(self)@.ticked(raw, timer),
    {
        assert(layout::fits(PLACE_SCB as int, self@.bus.devices[PLACE_SCB as int]));
        self.tick_one(PLACE_SCB, raw);
        assert(layout::fits(PLACE_DWT as int, self@.bus.devices[PLACE_DWT as int]));
        self.tick_one(PLACE_DWT, timer);
        assert(layout::fits(PLACE_DAC as int, self@.bus.devices[PLACE_DAC as int]));
        self.tick_one(PLACE_DAC, timer);
        assert(layout::fits(PLACE_DMA1 as int, self@.bus.devices[PLACE_DMA1 as int]));
        self.tick_one(PLACE_DMA1, timer);
        assert(layout::fits(PLACE_DMA2 as int, self@.bus.devices[PLACE_DMA2 as int]));
        self.tick_one(PLACE_DMA2, timer);
        assert(layout::fits(PLACE_RTC as int, self@.bus.devices[PLACE_RTC as int]));
        self.tick_one(PLACE_RTC, timer);
        self.settle();
    }

    /// How many devices need ticks.
    pub fn active_count(&self) -> (r: usize)
        requires
            self@.wf(),
        ensures
            r == self@.active_among(DEVICE_COUNT as int),
    {
        let mut n: usize = 0;
        let mut i: usize = 0;
        while i < DEVICE_COUNT
            invariant
                i <= DEVICE_COUNT,
                n <= i,
                self@.wf(),
                n == self@.active_among(i as int),
            decreases DEVICE_COUNT - i,
        {
            if self.bus.device(i).active() {
                n = n + 1;
            }
            i = i + 1;
        }
        n
    }

    /// Does a transfer wait?
    pub fn dma_waits(&self) -> (r: bool)
        requires
            self@.wf(),
        ensures
            r == self@.dma_waits(),
    {
        assert(layout::fits(PLACE_DMA1 as int, self@.bus.devices[PLACE_DMA1 as int]));
        assert(layout::fits(PLACE_DMA2 as int, self@.bus.devices[PLACE_DMA2 as int]));
        let first = match self.bus.device(PLACE_DMA1) {
            Device::Dma(d) => d.has_pending(),
            _ => false,
        };
        let second = match self.bus.device(PLACE_DMA2) {
            Device::Dma(d) => d.has_pending(),
            _ => false,
        };
        first || second
    }

    /// Do the noted transfers of both controllers stay within the address space?
    pub fn transfers_fit(&self) -> (r: bool)
        requires
            self@.wf(),
        ensures
            r == self@.transfers_fit(),
    {
        assert(layout::fits(PLACE_DMA1 as int, self@.bus.devices[PLACE_DMA1 as int]));
        assert(layout::fits(PLACE_DMA2 as int, self@.bus.devices[PLACE_DMA2 as int]));
        assert(Device::inv(self@.bus.devices[PLACE_DMA1 as int]));
        assert(Device::inv(self@.bus.devices[PLACE_DMA2 as int]));
        let first = match self.bus.device(PLACE_DMA1) {
            Device::Dma(d) => d.transfers_fit(),
            _ => true,
        };
        let second = match self.bus.device(PLACE_DMA2) {
            Device::Dma(d) => d.transfers_fit(),
            _ => true,
        };
        first && second
    }

    fn pump_one<M: GuestMemory>(&mut self, place: usize, mem: &mut M)
        requires
            old(self)@.wf(),
            place == PLACE_DMA1 || place == PLACE_DMA2,
            all_fit(old(self)@.dma(place as int)),
        ensures
            final(self)@.wf(),
            (final(self)@, final(mem)@) == old(self)@.pumped_one(place as int, old(mem)@),
            final(self)@.w.nested_as(old(self)@.w),
            forall|i: int|
                #![trigger final(self)@.bus.devices[i]]
                PLACE_CAN1 <= i < DEVICE_COUNT && i != place ==> final(self)@.bus.devices[i] == old(
                    self)@.bus.devices[i],
    {
        let ghost b0 = self@;
        let ghost m0 = mem@;
        assert(layout::fits(place as int, b0.bus.devices[place as int]));
        assert(Device::inv(b0.bus.devices[place as int]));
        let mut out = Device::Flash(Flash::new());
        let row = self.bus.devices_mut();
        assert(row@[place as int]@ == b0.bus.devices[place as int]);
        std::mem::swap(&mut row[place], &mut out);
        let ghost start = DmaWorld {
            dma: b0.dma(place as int),
            w: b0.w,
            mem: m0,
            devs: b0.bus.devices.update(
                place as int,
                DeviceView::Flash(flash::reset_registers()),
            ),
        };
        assert(dma::states(row@) =~= start.devs);
        match out {
            Device::Dma(mut d) => {
                proof {
                    assert forall|i: int| 0 <= i < row@.len() implies Device::dr_inv(
                        #[trigger] row@[i]@,
                    ) by {
                        assert(dma::states(row@)[i] == row@[i]@);
                        if i != place {
                            assert(Device::inv(b0.bus.devices[i]));
                        }
                    }
                    assert(d@.wired_within(DEVICE_COUNT as int)) by {
                        assert forall|i: int| 0 <= i < d@.wired.len() implies (
                        #[trigger] d@.wired[i] matches Some(k) ==> k < DEVICE_COUNT) by {}
                    }
                }
                d.process(&mut self.wires, mem, row);
                let ghost after = row@;
                row[place] = Device::Dma(d);
                proof {
                    assert forall|i: int| 0 <= i < dma::states(after).len() implies Device::inv(
                        #[trigger] dma::states(after)[i],
                    ) by {
                        assert(Device::dr_inv(after[i]@));
                    }
                    lemma_row_back(b0, dma::states(after), place as int, start);
                    lemma_streams_keep_nesting(start, 8);
                    assert(dma::states(row@) =~= dma::states(after).update(
                        place as int,
                        DeviceView::Dma(d@),
                    ));
                }
            },
            _ => {},
        }
        self.wires.shape();
    }

    /// Both controllers carry out their transfers.
    pub fn pump<M: GuestMemory>(&mut self, mem: &mut M)
        requires
            old(self)@.wf(),
            old(self)@.transfers_fit(),
        ensures
            final(self)@.wf(),
            (final(self)@, final(mem)@) == old(self)@.pumped(old(mem)@),
            final(self)@.w.nested_as(old(self)@.w),
    {
        let ghost b0 = self@;
        self.pump_one(PLACE_DMA1, mem);
        assert(self@.bus.devices[PLACE_DMA2 as int] == b0.bus.devices[PLACE_DMA2 as int]);
        self.pump_one(PLACE_DMA2, mem);
        self.settle();
    }
}

/// Time passes for the system timer in cycles of the processor, and for the cycle counter, the
/// DAC, the transfer controllers and the clock in cycles of the timers; for a device that does
/// not run, and for every other device, it does not pass.
pub proof fn law_who_counts(b: BoardView, raw: u64, timer: u64, p: int)
    requires
        b.wf(),
        p == 0 || p == 1 || p == 21 || p == 30 || p == 31 || p == 33,
        b.w.events.cursors.len() > 0,
        forall|k: int|
            0 <= k < 36 && k != p ==> !device::device_active(#[trigger] b.bus.devices[k]),
    ensures
        ({
            let t = b.ticked(raw, timer);
            let cycles = if p == 0 {
                raw
            } else {
                timer
            };
            let (d, w) = Device::tick_of(b.bus.devices[p], b.w, cycles);
            &&& device::device_active(b.bus.devices[p]) && w.events.cursors.len() > 0
                && w.events.inbox(0).len() == 0 ==> {
                &&& t.bus.devices[p] == d
                &&& forall|k: int|
                    0 <= k < 36 && k != p ==> #[trigger] t.bus.devices[k] == b.bus.devices[k]
                &&& t.w.nvic == w.nvic && t.w.reset == w.reset
            }
            &&& !device::device_active(b.bus.devices[p]) && b.w.events.inbox(0).len() == 0
                ==> t.bus == b.bus && t.w.nvic == b.w.nvic && t.w.reset == b.w.reset
        }),
{
    let cycles = if p == 0 {
        raw
    } else {
        timer
    };
    if device::device_active(b.bus.devices[p]) {
        let b1 = b.ticked_one(p, cycles);
        assert forall|k: int| 0 <= k < 36 && k != p implies #[trigger] b1.bus.devices[k]
            == b.bus.devices[k] by {}
        assert(!device::device_active(b.bus.devices[0]) || p == 0);
        assert(!device::device_active(b.bus.devices[1]) || p == 1);
        assert(!device::device_active(b.bus.devices[21]) || p == 21);
        assert(!device::device_active(b.bus.devices[30]) || p == 30);
        assert(!device::device_active(b.bus.devices[31]) || p == 31);
        assert(!device::device_active(b.bus.devices[33]) || p == 33);
        let s = b.ticked_one(0, raw).ticked_one(1, timer).ticked_one(21, timer).ticked_one(
            30,
            timer,
        ).ticked_one(31, timer).ticked_one(33, timer);
        assert(s == b1);
    }
}

} // verus!
