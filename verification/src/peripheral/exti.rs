//! The external interrupt controller.
//!
//! Line `n` (0 to 15) listens to pin `n` of the GPIO port that the system configuration
//! selects for it. A change of the level in an armed direction sets the line's pending bit; if
//! the bit was clear and the line is unmasked, its interrupt is raised. A software trigger
//! does the same. Pending bits are cleared by writing ones.
//!
//! Offsets: IMR 0x00, EMR 0x04, RTSR 0x08, FTSR 0x0C, SWIER 0x10, PR 0x14.
use crate::bits;
use crate::peripheral::{BusError, Peripheral};
use crate::wires::{Wires, WiresView};
use vstd::prelude::*;

verus! {

pub const EXTI_BASE: u32 = 0x4001_3C00;

pub const OFF_IMR: u32 = 0x00;

pub const OFF_EMR: u32 = 0x04;

pub const OFF_RTSR: u32 = 0x08;

pub const OFF_FTSR: u32 = 0x0C;

pub const OFF_SWIER: u32 = 0x10;

pub const OFF_PR: u32 = 0x14;

/// The interrupt of a line.
pub open spec fn irq_of_line(line: int) -> Option<u32> {
    if 0 <= line <= 4 {
        Some((6 + line) as u32)
    } else if 5 <= line <= 9 {
        Some(23u32)
    } else if 10 <= line <= 15 {
        Some(40u32)
    } else {
        None
    }
}

/// The interrupt of a line: lines 0 to 4 have their own, 5 to 9 share one, and so do 10 to 15.
pub fn line_irq(line: u8) -> (r: Option<u32>)
    ensures
        r == irq_of_line(line as int),
{
    if line <= 4 {
        Some(6 + line as u32)
    } else if line <= 9 {
        Some(23)
    } else if line <= 15 {
        Some(40)
    } else {
        None
    }
}

/// External interrupt controller.
pub struct Exti {
    imr: u32,
    emr: u32,
    rtsr: u32,
    ftsr: u32,
    swier: u32,
    pr: u32,
    last_level: [bool; 16],
}

/// The state of the controller.
#[verifier::ext_equal]
pub struct ExtiView {
    pub imr: u32,
    pub emr: u32,
    pub rtsr: u32,
    pub ftsr: u32,
    pub swier: u32,
    pub pr: u32,
    /// The level that each line had last.
    pub last_level: Seq<bool>,
}

impl View for Exti {
    type V = ExtiView;

    closed spec fn view(&self) -> ExtiView {
        ExtiView {
            imr: self.imr,
            emr: self.emr,
            rtsr: self.rtsr,
            ftsr: self.ftsr,
            swier: self.swier,
            pr: self.pr,
            last_level: self.last_level@,
        }
    }
}

impl ExtiView {
    pub open spec fn fresh() -> ExtiView {
        ExtiView {
            imr: 0,
            emr: 0,
            rtsr: 0,
            ftsr: 0,
            swier: 0,
            pr: 0,
            last_level: Seq::new(16, |i: int| false),
        }
    }

    pub open spec fn wf(self) -> bool {
        self.last_level.len() == 16
    }

    /// Is a line armed for the edge that leads to `level`?
    pub open spec fn armed(self, line: int, level: bool) -> bool {
        if level {
            bits::has_bit(self.rtsr, line)
        } else {
            bits::has_bit(self.ftsr, line)
        }
    }

    /// A line fires; one that is pending already stays as it is.
    pub open spec fn trigger_line(self, w: WiresView, line: int) -> (ExtiView, WiresView) {
        if bits::has_bit(self.pr, line) {
            (self, w)
        } else {
            (
                ExtiView { pr: self.pr | bits::bit(line), ..self },
                w.pend_if(bits::has_bit(self.imr, line), irq_of_line(line)->0),
            )
        }
    }

    /// The lines below `n` whose bit is set in `value` fire, in order.
    pub open spec fn trigger_lines(self, w: WiresView, value: u32, n: int) -> (ExtiView, WiresView)
        decreases n,
    {
        if n <= 0 {
            (self, w)
        } else {
            let (s, w1) = self.trigger_lines(w, value, n - 1);
            if bits::has_bit(value, n - 1) {
                s.trigger_line(w1, n - 1)
            } else {
                (s, w1)
            }
        }
    }

    /// A pin of a port shows a level.
    pub open spec fn feed_gpio(self, w: WiresView, port: u8, pin: u8, level: bool) -> (
        ExtiView,
        WiresView,
    ) {
        if pin >= 16 || w.exti[pin as int] != port || self.last_level[pin as int] == level {
            (self, w)
        } else {
            let s = ExtiView { last_level: self.last_level.update(pin as int, level), ..self };
            if s.armed(pin as int, level) {
                s.trigger_line(w, pin as int)
            } else {
                (s, w)
            }
        }
    }

    pub open spec fn read(self, offset: u32, size: u32) -> Result<u32, BusError> {
        if size != 4 {
            Err(BusError::NotImplemented)
        } else if offset == OFF_IMR {
            Ok(self.imr)
        } else if offset == OFF_EMR {
            Ok(self.emr)
        } else if offset == OFF_RTSR {
            Ok(self.rtsr)
        } else if offset == OFF_FTSR {
            Ok(self.ftsr)
        } else if offset == OFF_SWIER {
            Ok(0u32)
        } else if offset == OFF_PR {
            Ok(self.pr)
        } else {
            Err(BusError::OutOfRange)
        }
    }

    pub open spec fn write(self, w: WiresView, offset: u32, size: u32, value: u32) -> (
        ExtiView,
        WiresView,
        Result<(), BusError>,
    ) {
        if size != 4 {
            (self, w, Err(BusError::NotImplemented))
        } else if offset == OFF_IMR {
            (ExtiView { imr: value, ..self }, w, Ok(()))
        } else if offset == OFF_EMR {
            (ExtiView { emr: value, ..self }, w, Ok(()))
        } else if offset == OFF_RTSR {
            (ExtiView { rtsr: value, ..self }, w, Ok(()))
        } else if offset == OFF_FTSR {
            (ExtiView { ftsr: value, ..self }, w, Ok(()))
        } else if offset == OFF_SWIER {
            let (s, w1) = ExtiView { swier: value, ..self }.trigger_lines(w, value, 16);
            (s, w1, Ok(()))
        } else if offset == OFF_PR {
            (ExtiView { pr: self.pr & !value, ..self }, w, Ok(()))
        } else {
            (self, w, Err(BusError::OutOfRange))
        }
    }
}

impl Exti {
    pub fn new() -> (r: Self)
        ensures
            r@ == ExtiView::fresh(),
            r@.wf(),
    {
        let r = Exti {
            imr: 0,
            emr: 0,
            rtsr: 0,
            ftsr: 0,
            swier: 0,
            pr: 0,
            last_level: bits::filled(false),
        };
        assert(r@ =~= ExtiView::fresh());
        r
    }

    /// A pin of a port shows a level. Pins past 15 have no line.
    pub fn feed_gpio(&mut self, w: &mut Wires, port: u8, pin: u8, level: bool)
        requires
            old(self)@.wf(),
        ensures
            final(self)@.wf(),
            (final(self)@, final(w)@) == old(self)@.feed_gpio(old(w)@, port, pin, level),
    {
        if pin >= 16 {
            return ;
        }
        if w.exti.port[pin as usize] != port {
            return ;
        }
        if self.last_level[pin as usize] == level {
            return ;
        }
        self.last_level[pin as usize] = level;
        let mask = 1u32 << (pin as u32);
        let armed = if level {
            self.rtsr & mask != 0
        } else {
            self.ftsr & mask != 0
        };
        if armed {
            self.trigger_line(w, pin);
        }
    }

    fn trigger_line(&mut self, w: &mut Wires, line: u8)
        requires
            line < 16,
            old(self)@.wf(),
        ensures
            final(self)@.wf(),
            (final(self)@, final(w)@) == old(self)@.trigger_line(old(w)@, line as int),
    {
        let mask = 1u32 << (line as u32);
        if self.pr & mask != 0 {
            return ;
        }
        self.pr = self.pr | mask;
        if self.imr & mask != 0 {
            if let Some(irq) = line_irq(line) {
                w.pend(irq);
            }
        }
    }

    fn trigger_lines(&mut self, w: &mut Wires, value: u32)
        requires
            old(self)@.wf(),
        ensures
            final(self)@.wf(),
            (final(self)@, final(w)@) == old(self)@.trigger_lines(old(w)@, value, 16),
    {
        let mut line: u8 = 0;
        while line < 16
            invariant
                line <= 16,
                self@.wf(),
                (self@, w@) == old(self)@.trigger_lines(old(w)@, value, line as int),
            decreases 16 - line,
        {
            if value & (1u32 << (line as u32)) != 0 {
                self.trigger_line(w, line);
            }
            line = line + 1;
        }
    }
}

impl Default for Exti {
    fn default() -> (r: Self)
        ensures
            r@ == ExtiView::fresh(),
    {
        Exti::new()
    }
}

impl Peripheral for Exti {
    open spec fn inv(s: ExtiView) -> bool {
        s.wf()
    }

    open spec fn readable(s: ExtiView, w: WiresView, offset: u32, size: u32) -> bool {
        true
    }

    open spec fn read_of(s: ExtiView, w: WiresView, offset: u32, size: u32) -> (
        ExtiView,
        WiresView,
        Result<u32, BusError>,
    ) {
        (s, w, s.read(offset, size))
    }

    open spec fn writable(s: ExtiView, w: WiresView, offset: u32, size: u32, value: u32) -> bool {
        true
    }

    open spec fn write_of(s: ExtiView, w: WiresView, offset: u32, size: u32, value: u32) -> (
        ExtiView,
        WiresView,
        Result<(), BusError>,
    ) {
        s.write(w, offset, size, value)
    }

    open spec fn reset_of(s: ExtiView, w: WiresView) -> (ExtiView, WiresView) {
        (ExtiView::fresh(), w)
    }

    open spec fn tickable(s: ExtiView, w: WiresView, cycles: u64) -> bool {
        true
    }

    open spec fn tick_of(s: ExtiView, w: WiresView, cycles: u64) -> (ExtiView, WiresView) {
        (s, w)
    }

    open spec fn label(s: ExtiView) -> Seq<char> {
        "EXTI"@
    }

    fn name(&self) -> &str {
        "EXTI"
    }

    fn read(&mut self, w: &mut Wires, offset: u32, size: u32) -> Result<u32, BusError> {
        if size != 4 {
            return Err(BusError::NotImplemented);
        }
        match offset {
            OFF_IMR => Ok(self.imr),
            OFF_EMR => Ok(self.emr),
            OFF_RTSR => Ok(self.rtsr),
            OFF_FTSR => Ok(self.ftsr),
            OFF_SWIER => Ok(0),
            OFF_PR => Ok(self.pr),
            _ => Err(BusError::OutOfRange),
        }
    }

    fn write(&mut self, w: &mut Wires, offset: u32, size: u32, value: u32) -> Result<(), BusError> {
        if size != 4 {
            return Err(BusError::NotImplemented);
        }
        match offset {
            OFF_IMR => {
                self.imr = value;
                Ok(())
            },
            OFF_EMR => {
                self.emr = value;
                Ok(())
            },
            OFF_RTSR => {
                self.rtsr = value;
                Ok(())
            },
            OFF_FTSR => {
                self.ftsr = value;
                Ok(())
            },
            OFF_SWIER => {
                self.swier = value;
                self.trigger_lines(w, value);
                Ok(())
            },
            OFF_PR => {
                self.pr = self.pr & !value;
                Ok(())
            },
            _ => Err(BusError::OutOfRange),
        }
    }

    fn reset(&mut self, w: &mut Wires) {
        self.imr = 0;
        self.emr = 0;
        self.rtsr = 0;
        self.ftsr = 0;
        self.swier = 0;
        self.pr = 0;
        self.last_level = bits::filled(false);
        assert(self@ =~= ExtiView::fresh());
    }

    fn tick(&mut self, w: &mut Wires, cycles: u64) {
    }
}

/// A line hears only the port that is selected for it.
pub proof fn law_other_ports_are_ignored(s: ExtiView, w: WiresView, port: u8, pin: u8, level: bool)
    requires
        pin < 16,
        w.exti[pin as int] != port,
    ensures
        s.feed_gpio(w, port, pin, level) == (s, w),
{
}

/// Only a change of the level counts: showing the same level again does nothing.
pub proof fn law_edges_only(s: ExtiView, w: WiresView, port: u8, pin: u8, level: bool)
    requires
        s.wf(),
        pin < 16,
    ensures
        ({
            let (t, w1) = s.feed_gpio(w, port, pin, level);
            t.feed_gpio(w1, port, pin, level) == (t, w1)
        }),
{
}

/// A triggered line is pending, no other line changes, and its interrupt is raised just if the
/// line was not pending before and is unmasked.
pub proof fn law_trigger(s: ExtiView, w: WiresView, line: int, other: int)
    requires
        0 <= line < 16,
        0 <= other < 16,
    ensures
        bits::has_bit(s.trigger_line(w, line).0.pr, line),
        other != line ==> bits::has_bit(s.trigger_line(w, line).0.pr, other) == bits::has_bit(
            s.pr,
            other,
        ),
        s.trigger_line(w, line).1 == w.pend_if(
            !bits::has_bit(s.pr, line) && bits::has_bit(s.imr, line),
            irq_of_line(line)->0,
        ),
{
    bits::lemma_set_bit(s.pr, line, line);
    bits::lemma_set_bit(s.pr, line, other);
}

/// Writing ones clears pending bits, and only those.
pub proof fn law_pending_write_one_clears(s: ExtiView, w: WiresView, value: u32, line: int)
    requires
        0 <= line < 32,
    ensures
        bits::has_bit(s.write(w, OFF_PR, 4, value).0.pr, line) == (bits::has_bit(s.pr, line)
            && !bits::has_bit(value, line)),
{
    bits::lemma_bits_of_sets(s.pr, value, line);
}

/// A rising edge on a pin of the selected port fires its line if the rising trigger is armed, a
/// falling edge if the falling trigger is: the line is pending then, and its interrupt is raised
/// if it was not pending and is unmasked. An edge that is not armed is only remembered.
pub proof fn law_armed_edges_fire(s: ExtiView, w: WiresView, port: u8, pin: u8, level: bool)
    requires
        s.wf(),
        pin < 16,
        w.exti[pin as int] == port,
        s.last_level[pin as int] != level,
    ensures
        ({
            let (t, v) = s.feed_gpio(w, port, pin, level);
            let armed = if level {
                bits::has_bit(s.rtsr, pin as int)
            } else {
                bits::has_bit(s.ftsr, pin as int)
            };
            let irq: u32 = if pin <= 4 {
                (6 + pin) as u32
            } else if pin <= 9 {
                23
            } else {
                40
            };
            &&& t.last_level[pin as int] == level
            &&& bits::has_bit(t.pr, pin as int) <==> armed || bits::has_bit(s.pr, pin as int)
            &&& !armed ==> v == w && t.pr == s.pr
            &&& armed ==> v == if !bits::has_bit(s.pr, pin as int) && bits::has_bit(s.imr, pin as int) {
                w.pend(irq)
            } else {
                w
            }
        }),
{
    bits::lemma_set_bit(s.pr, pin as int, pin as int);
}

/// A write to the software register makes the lines of its ones pending and no others; every one
/// of them that was not pending and is unmasked has its interrupt raised.
pub proof fn law_software_triggers(s: ExtiView, w: WiresView, value: u32, n: int, line: int)
    requires
        w.wf(),
        0 <= n <= 16,
        0 <= line < 16,
    ensures
        ({
            let (t, v) = s.trigger_lines(w, value, n);
            &&& v.wf()
            &&& t.imr == s.imr
            &&& bits::has_bit(t.pr, line) <==> bits::has_bit(s.pr, line) || line < n && bits::has_bit(
                value,
                line,
            )
            &&& line < n && bits::has_bit(value, line) && !bits::has_bit(s.pr, line) && bits::has_bit(
                s.imr,
                line,
            ) ==> v.nvic.is_pending(irq_of_line(line)->0 as int)
            &&& forall|j: int|
                0 <= j < 96 && w.nvic.is_pending(j) ==> #[trigger] v.nvic.is_pending(j)
        }),
        s.write(w, 0x10, 4, value) == ({
            let (t, v) = (ExtiView { swier: value, ..s }).trigger_lines(w, value, 16);
            (t, v, Ok::<(), BusError>(()))
        }),
    decreases n,
{
    if n > 0 {
        law_software_triggers(s, w, value, n - 1, line);
        law_software_triggers(s, w, value, n - 1, n - 1);
        let (t, v) = s.trigger_lines(w, value, n - 1);
        law_trigger(t, v, n - 1, line);
        let irq = irq_of_line(n - 1)->0;
        assert forall|j: int| 0 <= j < 96 && v.nvic.is_pending(j) implies #[trigger] v.pend(
            irq,
        ).nvic.is_pending(j) by {
            crate::peripheral::nvic::law_set_pending(v.nvic, irq as int, j);
        }
        crate::peripheral::nvic::law_set_pending(v.nvic, irq as int, irq as int);
        crate::wires::law_wires_stay_in_shape(v, irq, crate::events::Event::TimUpdate { port: 0 });
    }
}

/// The masks and triggers read back what was written to them.
pub proof fn law_masks_read_back(s: ExtiView, w: WiresView, value: u32)
    ensures
        s.write(w, 0x00, 4, value).0 == (ExtiView { imr: value, ..s }),
        s.write(w, 0x08, 4, value).0 == (ExtiView { rtsr: value, ..s }),
        s.write(w, 0x0C, 4, value).0 == (ExtiView { ftsr: value, ..s }),
        s.read(0x00, 4) == Ok::<u32, BusError>(s.imr),
        s.read(0x08, 4) == Ok::<u32, BusError>(s.rtsr),
        s.read(0x0C, 4) == Ok::<u32, BusError>(s.ftsr),
        s.read(0x14, 4) == Ok::<u32, BusError>(s.pr),
{
}

} // verus!
