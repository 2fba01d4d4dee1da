//! What leaves a peripheral: the wires that it shares with the rest of the chip.
use crate::events::{Event, EventBus, EventBusView};
use crate::peripheral::mpu::{Mpu, MpuView};
use crate::peripheral::nvic::{Nvic, NvicView};
use crate::peripheral::syscfg::ExtiPortSelect;
use crate::peripheral::wdog::{ResetReason, WdogResetReq};
use vstd::prelude::*;

verus! {

/// The shared state: every access to a peripheral may act on it.
pub struct Wires {
    /// Interrupt lines end here.
    pub nvic: Nvic,
    /// Events are published here.
    pub events: EventBus,
    /// The memory protection unit, whose registers the system control block shows.
    pub mpu: Mpu,
    /// The GPIO port that each external interrupt line listens to.
    pub exti: ExtiPortSelect,
    /// Requests for a system reset.
    pub reset: WdogResetReq,
    /// May the backup registers be written? The power controller decides.
    pub backup_writable: bool,
}

/// The state of the wires.
#[verifier::ext_equal]
pub struct WiresView {
    pub nvic: NvicView,
    pub events: EventBusView,
    pub mpu: MpuView,
    pub exti: Seq<u8>,
    pub reset: Option<ResetReason>,
    pub backup_writable: bool,
}

impl View for Wires {
    type V = WiresView;

    open spec fn view(&self) -> WiresView {
        WiresView {
            nvic: self.nvic@,
            events: self.events@,
            mpu: self.mpu@,
            exti: self.exti.port@,
            reset: self.reset.reason,
            backup_writable: self.backup_writable,
        }
    }
}

impl WiresView {
    pub open spec fn wf(self) -> bool {
        &&& self.nvic.wf()
        &&& self.events.wf()
        &&& self.mpu.wf()
        &&& self.exti.len() == 16
    }

    /// Are the running exceptions and the stop reason the same? Devices do not touch them.
    pub open spec fn nested_as(self, w: WiresView) -> bool {
        &&& self.nvic.stack == w.nvic.stack
        &&& self.nvic.callee == w.nvic.callee
        &&& self.nvic.stop == w.nvic.stop
    }

    /// The interrupt line `irq` was raised.
    pub open spec fn pend(self, irq: u32) -> WiresView {
        WiresView { nvic: self.nvic.set_pending(irq as int), ..self }
    }

    /// The interrupt line `irq` was raised, if `on`.
    pub open spec fn pend_if(self, on: bool, irq: u32) -> WiresView {
        if on {
            self.pend(irq)
        } else {
            self
        }
    }

    /// An event was published.
    pub open spec fn publish(self, ev: Event) -> WiresView {
        WiresView { events: self.events.publish(ev), ..self }
    }

    /// An event was published, if `on`.
    pub open spec fn publish_if(self, on: bool, ev: Event) -> WiresView {
        if on {
            self.publish(ev)
        } else {
            self
        }
    }
}

impl Wires {
    pub fn new() -> (r: Wires)
        ensures
            r@.wf(),
            r@.nvic == NvicView::fresh(false),
            r@.events == (EventBusView { log: Seq::empty(), cursors: Seq::empty() }),
            r@.mpu == MpuView::fresh(false),
            r@.exti == Seq::new(16, |i: int| 0u8),
            r@.reset is None,
            !r@.backup_writable,
    {
        Wires {
            nvic: Nvic::new(),
            events: EventBus::new(),
            mpu: Mpu::new(),
            exti: ExtiPortSelect::default(),
            reset: WdogResetReq::new(),
            backup_writable: false,
        }
    }

    /// What the types promise: the wires are always in shape.
    pub fn shape(&self)
        ensures
            self@.wf(),
    {
        proof {
            self.mpu.lemma_wf();
        }
        self.nvic.shape();
        self.events.shape();
    }

    /// Raises the interrupt line `irq`.
    pub fn pend(&mut self, irq: u32)
        requires
            irq < 96,
        ensures
            final(self)@ == old(self)@.pend(irq),
    {
        self.nvic.set_pending(irq);
    }

    /// Publishes an event.
    pub fn publish(&mut self, ev: Event)
        ensures
            final(self)@ == old(self)@.publish(ev),
    {
        self.events.publish(ev);
    }
}

/// Raising a line and publishing an event keep the wires in shape.
pub proof fn law_wires_stay_in_shape(w: WiresView, irq: u32, ev: Event)
    requires
        w.wf(),
        irq < 96,
    ensures
        w.pend(irq).wf(),
        w.publish(ev).wf(),
{
    assert forall|i: int| 0 <= i < w.events.cursors.len() implies #[trigger] w.publish(
        ev,
    ).events.cursors[i] <= w.publish(ev).events.log.len() by {
        assert(w.events.cursors[i] <= w.events.log.len());
    }
}

/// Raising a line makes that interrupt pending and no other; publishing an event puts it behind
/// those that were published before. Neither touches anything else.
pub proof fn law_lines_and_events(w: WiresView, irq: u32, j: int, ev: Event)
    requires
        w.wf(),
        irq < 96,
        0 <= j < 96,
    ensures
        w.pend(irq).nvic.is_pending(j) == (j == irq || w.nvic.is_pending(j)),
        w.pend(irq).nvic.enable == w.nvic.enable,
        w.pend(irq).nvic.sys_pending == w.nvic.sys_pending,
        w.pend(irq).events == w.events && w.pend(irq).mpu == w.mpu && w.pend(irq).reset == w.reset,
        w.publish(ev).events.log == if w.events.cursors.len() > 0 {
            w.events.log.push(ev)
        } else {
            w.events.log
        },
        w.publish(ev).events.cursors == w.events.cursors,
        w.publish(ev).nvic == w.nvic && w.publish(ev).mpu == w.mpu && w.publish(ev).reset == w.reset,
{
    crate::peripheral::nvic::law_set_pending(w.nvic, irq as int, j);
}

} // verus!
