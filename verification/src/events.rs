//! The event bus: how virtual peripherals hear of each other.
//!
//! A subscriber sees every event that is published after it subscribed, in the order of
//! publication. The bus keeps one log and, for each subscriber, how far it has read.
use crate::peripheral::can::CanFrame;
use crate::peripheral::dma::DmaDir;
use vstd::prelude::*;

verus! {

/// What a peripheral tells the rest of the board.
#[derive(Debug, Clone, PartialEq, Eq)]
pub enum Event {
    /// A USART sent a byte.
    UartByte { port: u8, byte: u8 },
    /// A byte arrives at a USART.
    UartRx { port: u8, byte: u8 },
    /// A USART asks for a DMA transfer.
    UartDma { port: u8, dir: DmaDir },
    /// An I2C controller sent a byte.
    I2cByte { port: u8, byte: u8 },
    /// A byte arrives at an I2C controller.
    I2cRx { port: u8, byte: u8 },
    /// An I2C controller asks for a DMA transfer.
    I2cDma { port: u8, dir: DmaDir },
    /// An SPI controller sent a byte.
    SpiByte { port: u8, byte: u8 },
    /// A byte arrives at an SPI controller.
    SpiRx { port: u8, byte: u8 },
    /// An SPI controller asks for a DMA transfer.
    SpiDma { port: u8, dir: DmaDir },
    /// A sample arrives at an ADC.
    AdcValue { port: u8, channel: u8, value: u16 },
    /// A DAC channel shows a new level (12 bits).
    DacLevel { port: u8, channel: u8, level: u16 },
    /// A DAC channel asks for a DMA transfer.
    DacDma { port: u8, channel: u8, dir: DmaDir },
    /// A timer reached its update event.
    TimUpdate { port: u8 },
    /// A timer output changed its level.
    TimPwm { port: u8, channel: u8, level: bool },
    /// A GPIO output pin changed its level.
    GpioLevel { port: u8, pin: u8, level: bool },
    /// A camera frame arrives at the DCMI.
    DcmiFrame { port: u8, data: Vec<u8> },
    /// The SDIO asks for a DMA transfer; `items` is 0 where the stream's own count holds.
    SdioDma { port: u8, dir: DmaDir, items: u32 },
    /// A CAN controller put a frame on the bus.
    CanFrame { frame: Box<CanFrame> },
    /// Anything else.
    Other(String),
}

/// The bus: the events that some subscriber may still want, and how far each has read.
pub struct EventBus {
    log: Vec<Event>,
    cursors: Vec<usize>,
}

/// The state of the bus.
#[verifier::ext_equal]
pub struct EventBusView {
    pub log: Seq<Event>,
    pub cursors: Seq<usize>,
}

impl View for EventBus {
    type V = EventBusView;

    closed spec fn view(&self) -> EventBusView {
        EventBusView { log: self.log@, cursors: self.cursors@ }
    }
}

impl EventBusView {
    /// No cursor is past the end of the log.
    pub open spec fn wf(self) -> bool {
        forall|i: int| 0 <= i < self.cursors.len() ==> #[trigger] self.cursors[i] <= self.log.len()
    }

    /// The bus after `ev` was published: with nobody listening, nothing happens.
    pub open spec fn publish(self, ev: Event) -> EventBusView {
        if self.cursors.len() == 0 {
            self
        } else {
            EventBusView { log: self.log.push(ev), ..self }
        }
    }

    /// The bus after `ev` was published, if `on`.
    pub open spec fn publish_if(self, on: bool, ev: Event) -> EventBusView {
        if on {
            self.publish(ev)
        } else {
            self
        }
    }

    /// What subscriber `id` has not read yet, oldest first.
    pub open spec fn inbox(self, id: int) -> Seq<Event> {
        self.log.skip(self.cursors[id] as int)
    }
}

impl EventBus {
    /// Every bus is in shape at all times.
    #[verifier::type_invariant]
    pub closed spec fn in_shape(self) -> bool {
        self@.wf()
    }

    pub fn new() -> (r: EventBus)
        ensures
            r@.wf(),
            r@ == (EventBusView { log: Seq::empty(), cursors: Seq::empty() }),
    {
        EventBus { log: Vec::new(), cursors: Vec::new() }
    }

    /// Takes the bus apart.
    fn take_parts(&mut self) -> (r: (Vec<Event>, Vec<usize>))
        ensures
            r.0@ == old(self)@.log,
            r.1@ == old(self)@.cursors,
            old(self)@.wf(),
    {
        proof {
            use_type_invariant(&*self);
        }
        let mut parts = EventBus::new();
        std::mem::swap(self, &mut parts);
        (parts.log, parts.cursors)
    }

    /// What the type promises: no cursor is past the end of the log.
    pub fn shape(&self)
        ensures
            self@.wf(),
    {
        proof {
            use_type_invariant(&*self);
        }
    }

    /// Hands `ev` to every subscriber.
    pub fn publish(&mut self, ev: Event)
        ensures
            final(self)@ == old(self)@.publish(ev),
    {
        if self.cursors.len() > 0 {
            let (mut log, cursors) = self.take_parts();
            log.push(ev);
            proof {
                law_publish_reaches_everyone(old(self)@, ev, 0);
            }
            *self = EventBus { log, cursors };
        }
    }

    /// Adds a subscriber and returns its number. It starts with an empty inbox.
    pub fn subscribe(&mut self) -> (id: usize)
        ensures
            final(self)@.wf(),
            id == old(self)@.cursors.len(),
            final(self)@.log == old(self)@.log,
            final(self)@.cursors.len() == id + 1,
            final(self)@.inbox(id as int) == Seq::<Event>::empty(),
            forall|i: int|
                0 <= i < id ==> #[trigger] final(self)@.cursors[i] == old(self)@.cursors[i],
    {
        let ghost before = self@;
        let (log, mut cursors) = self.take_parts();
        let id = cursors.len();
        let end = log.len();
        cursors.push(end);
        assert forall|i: int| 0 <= i < cursors@.len() implies #[trigger] cursors@[i]
            <= log@.len() by {
            if i < id {
                assert(before.cursors[i] <= before.log.len());
            }
        }
        *self = EventBus { log, cursors };
        id
    }

    pub fn subscriber_count(&self) -> (n: usize)
        ensures
            n == self@.cursors.len(),
    {
        self.cursors.len()
    }

    /// The oldest event that subscriber `id` has not read.
    pub fn peek(&self, id: usize) -> (r: Option<&Event>)
        requires
            self@.wf(),
            id < self@.cursors.len(),
        ensures
            r is Some <==> self@.inbox(id as int).len() > 0,
            r matches Some(e) ==> *e == self@.inbox(id as int)[0],
    {
        let at = self.cursors[id];
        if at < self.log.len() {
            Some(&self.log[at])
        } else {
            None
        }
    }

    /// The event that stands `k` places behind the oldest unread one of subscriber `id`.
    pub fn nth(&self, id: usize, k: usize) -> (r: Option<&Event>)
        requires
            id < self@.cursors.len(),
        ensures
            r is Some <==> k < self@.inbox(id as int).len(),
            r matches Some(e) ==> *e == self@.inbox(id as int)[k as int] && k < usize::MAX,
    {
        self.shape();
        let at = self.cursors[id];
        assert(self@.cursors[id as int] <= self@.log.len());
        if k < self.log.len() - at {
            Some(&self.log[at + k])
        } else {
            None
        }
    }

    /// Marks all events as read by subscriber `id`.
    pub fn catch_up(&mut self, id: usize)
        requires
            id < old(self)@.cursors.len(),
        ensures
            final(self)@ == (EventBusView {
                cursors: old(self)@.cursors.update(id as int, old(self)@.log.len() as usize),
                ..old(self)@
            }),
    {
        let (log, mut cursors) = self.take_parts();
        let end = log.len();
        cursors[id] = end;
        assert forall|i: int| 0 <= i < cursors@.len() implies #[trigger] cursors@[i]
            <= log@.len() by {
            assert(old(self)@.cursors[i] <= old(self)@.log.len());
        }
        *self = EventBus { log, cursors };
    }

    /// Marks the oldest unread event of subscriber `id` as read.
    pub fn advance(&mut self, id: usize)
        requires
            old(self)@.wf(),
            id < old(self)@.cursors.len(),
            old(self)@.inbox(id as int).len() > 0,
        ensures
            final(self)@.wf(),
            final(self)@.log == old(self)@.log,
            final(self)@.cursors == old(self)@.cursors.update(
                id as int,
                (old(self)@.cursors[id as int] + 1) as usize,
            ),
            final(self)@.inbox(id as int) == old(self)@.inbox(id as int).skip(1),
    {
        assert(self.log.len() > self.cursors[id as int]);
        let (log, mut cursors) = self.take_parts();
        let at = cursors[id];
        cursors[id] = at + 1;
        assert forall|i: int| 0 <= i < cursors@.len() implies #[trigger] cursors@[i]
            <= log@.len() by {
            assert(old(self)@.cursors[i] <= old(self)@.log.len());
        }
        *self = EventBus { log, cursors };
    }

    /// Drops the log once every subscriber has read all of it. No inbox changes.
    pub fn forget_read(&mut self)
        requires
            old(self)@.wf(),
        ensures
            final(self)@.wf(),
            final(self)@.cursors.len() == old(self)@.cursors.len(),
            forall|i: int|
                0 <= i < old(self)@.cursors.len() ==> #[trigger] final(self)@.inbox(i) == old(
                    self,
                )@.inbox(i),
            final(self)@.log.len() == 0 <==> (forall|i: int|
                0 <= i < old(self)@.cursors.len() ==> #[trigger] old(self)@.inbox(i).len() == 0),
    {
        let n = self.cursors.len();
        let end = self.log.len();
        let mut i: usize = 0;
        while i < n
            invariant
                i <= n,
                n == self.cursors.len(),
                end == self.log.len(),
                *self == *old(self),
                self@.wf(),
                forall|k: int| 0 <= k < i ==> #[trigger] self.cursors[k] == end,
            decreases n - i,
        {
            if self.cursors[i] < end {
                assert(old(self)@.inbox(i as int).len() > 0);
                return;
            }
            i = i + 1;
        }
        proof {
            assert forall|k: int| 0 <= k < n implies #[trigger] old(self)@.inbox(k)
                == Seq::<Event>::empty() by {
                assert(self.cursors[k] == end);
            }
        }
        let mut cursors: Vec<usize> = Vec::new();
        let mut i: usize = 0;
        while i < n
            invariant
                i <= n,
                i == cursors.len(),
                forall|k: int| 0 <= k < i ==> #[trigger] cursors[k] == 0,
            decreases n - i,
        {
            cursors.push(0);
            i = i + 1;
        }
        *self = EventBus { log: Vec::new(), cursors };
        proof {
            assert forall|k: int| 0 <= k < n implies #[trigger] self@.inbox(k)
                == Seq::<Event>::empty() by {
                assert(self.cursors[k] == 0);
            }
        }
    }
}

/// A published event is the newest entry of every inbox, and nothing else moves.
pub proof fn law_publish_reaches_everyone(b: EventBusView, ev: Event, id: int)
    requires
        b.wf(),
        0 <= id < b.cursors.len(),
    ensures
        b.publish(ev).wf(),
        b.publish(ev).inbox(id) == b.inbox(id).push(ev),
{
    assert(b.cursors[id] <= b.log.len());
    assert forall|i: int| 0 <= i < b.cursors.len() implies #[trigger] b.publish(ev).cursors[i]
        <= b.publish(ev).log.len() by {
        assert(b.cursors[i] <= b.log.len());
    }
    assert(b.publish(ev).inbox(id) =~= b.inbox(id).push(ev));
}

} // verus!
