//! The system configuration controller: which GPIO port feeds each external interrupt line.
//!
//! EXTICR1-4 at 0x08 to 0x14 hold four lines each, four bits a line (0 is port A). The other
//! registers keep what is written to them.
use crate::bits;
use crate::peripheral::{BusError, Peripheral};
use crate::wires::{Wires, WiresView};
use vstd::prelude::*;

verus! {

/// The GPIO port selected for each external interrupt line (0 is port A).
pub struct ExtiPortSelect {
    pub port: [u8; 16],
}

impl Default for ExtiPortSelect {
    fn default() -> (r: Self)
        ensures
            r.port@ == Seq::new(16, |i: int| 0u8),
    {
        let r = ExtiPortSelect { port: bits::filled(0) };
        assert(r.port@ =~= Seq::new(16, |i: int| 0u8));
        r
    }
}

const OFF_EXTICR1: u32 = 0x08;

const OFF_EXTICR4: u32 = 0x14;

/// System configuration controller.
pub struct Syscfg {
    regs: [u32; 16],
}

/// Its register file.
#[verifier::ext_equal]
pub struct SyscfgView {
    pub regs: Seq<u32>,
}

impl View for Syscfg {
    type V = SyscfgView;

    closed spec fn view(&self) -> SyscfgView {
        SyscfgView { regs: self.regs@ }
    }
}

/// The port field of line `k` of a selection word.
pub open spec fn port_field(value: u32, k: int) -> u8 {
    ((value >> ((4 * k) as u32)) & 0xF) as u8
}

/// The selection after the four lines from `base` on were set from a word.
pub open spec fn select_ports(ports: Seq<u8>, base: int, value: u32) -> Seq<u8> {
    ports.update(base, port_field(value, 0)).update(base + 1, port_field(value, 1)).update(
        base + 2,
        port_field(value, 2),
    ).update(base + 3, port_field(value, 3))
}

/// Does `offset` name one of the selection registers?
pub open spec fn is_exticr(offset: u32) -> bool {
    0x08 <= offset <= 0x14 && offset % 4 == 0
}

impl Syscfg {
    pub fn new() -> (r: Self)
        ensures
            r@.regs == Seq::new(16, |i: int| 0u32),
    {
        let r = Syscfg { regs: bits::filled(0) };
        assert(r.regs@ =~= Seq::new(16, |i: int| 0u32));
        r
    }

    fn write_exticr(&mut self, w: &mut Wires, cr: u32, value: u32)
        requires
            is_exticr(cr),
        ensures
            final(self)@.regs == old(self)@.regs.update(cr as int / 4, value),
            final(w)@ == (WiresView {
                exti: select_ports(old(w)@.exti, cr - 0x08, value),
                ..old(w)@
            }),
    {
        self.regs[(cr / 4) as usize] = value;
        let base = (cr - OFF_EXTICR1) as usize;
        w.exti.port[base] = ((value >> 0u32) & 0xF) as u8;
        w.exti.port[base + 1] = ((value >> 4u32) & 0xF) as u8;
        w.exti.port[base + 2] = ((value >> 8u32) & 0xF) as u8;
        w.exti.port[base + 3] = ((value >> 12u32) & 0xF) as u8;
    }
}

impl Default for Syscfg {
    fn default() -> (r: Self)
        ensures
            r@.regs == Seq::new(16, |i: int| 0u32),
    {
        Syscfg::new()
    }
}

impl Peripheral for Syscfg {
    open spec fn inv(s: SyscfgView) -> bool {
        s.regs.len() == 16
    }

    open spec fn readable(s: SyscfgView, w: WiresView, offset: u32, size: u32) -> bool {
        true
    }

    open spec fn read_of(s: SyscfgView, w: WiresView, offset: u32, size: u32) -> (
        SyscfgView,
        WiresView,
        Result<u32, BusError>,
    ) {
        if size != 4 {
            (s, w, Err(BusError::NotImplemented))
        } else if offset / 4 < 16 {
            (s, w, Ok(s.regs[offset as int / 4]))
        } else {
            (s, w, Err(BusError::OutOfRange))
        }
    }

    open spec fn writable(s: SyscfgView, w: WiresView, offset: u32, size: u32, value: u32) -> bool {
        true
    }

    open spec fn write_of(s: SyscfgView, w: WiresView, offset: u32, size: u32, value: u32) -> (
        SyscfgView,
        WiresView,
        Result<(), BusError>,
    ) {
        if size != 4 {
            (s, w, Err(BusError::NotImplemented))
        } else if offset / 4 >= 16 {
            (s, w, Err(BusError::OutOfRange))
        } else {
            (
                SyscfgView { regs: s.regs.update(offset as int / 4, value) },
                if is_exticr(offset) {
                    WiresView { exti: select_ports(w.exti, offset - 0x08, value), ..w }
                } else {
                    w
                },
                Ok(()),
            )
        }
    }

    open spec fn reset_of(s: SyscfgView, w: WiresView) -> (SyscfgView, WiresView) {
        (
            SyscfgView { regs: Seq::new(16, |i: int| 0u32) },
            WiresView { exti: Seq::new(16, |i: int| 0u8), ..w },
        )
    }

    open spec fn tickable(s: SyscfgView, w: WiresView, cycles: u64) -> bool {
        true
    }

    open spec fn tick_of(s: SyscfgView, w: WiresView, cycles: u64) -> (SyscfgView, WiresView) {
        (s, w)
    }

    open spec fn label(s: SyscfgView) -> Seq<char> {
        "SYSCFG"@
    }

    fn name(&self) -> &str {
        "SYSCFG"
    }

    fn read(&mut self, w: &mut Wires, offset: u32, size: u32) -> Result<u32, BusError> {
        if size != 4 {
            return Err(BusError::NotImplemented);
        }
        let i = (offset / 4) as usize;
        if i < 16 {
            Ok(self.regs[i])
        } else {
            Err(BusError::OutOfRange)
        }
    }

    fn write(&mut self, w: &mut Wires, offset: u32, size: u32, value: u32) -> Result<(), BusError> {
        if size != 4 {
            return Err(BusError::NotImplemented);
        }
        if offset >= OFF_EXTICR1 && offset <= OFF_EXTICR4 && offset % 4 == 0 {
            self.write_exticr(w, offset, value);
            return Ok(());
        }
        let i = (offset / 4) as usize;
        if i < 16 {
            self.regs[i] = value;
            Ok(())
        } else {
            Err(BusError::OutOfRange)
        }
    }

    fn reset(&mut self, w: &mut Wires) {
        self.regs = bits::filled(0);
        w.exti.port = bits::filled(0);
        assert(self.regs@ =~= Seq::new(16, |i: int| 0u32));
        assert(w.exti.port@ =~= Seq::new(16, |i: int| 0u8));
    }

    fn tick(&mut self, w: &mut Wires, cycles: u64) {
    }
}

/// A selection word sets the port of each of its four lines and of no other.
pub proof fn law_selection_word_sets_four_lines(w: WiresView, offset: u32, value: u32, line: int)
    requires
        w.exti.len() == 16,
        is_exticr(offset),
        0 <= line < 16,
    ensures
        Syscfg::write_of(
            SyscfgView { regs: Seq::new(16, |i: int| 0u32) },
            w,
            offset,
            4,
            value,
        ).1.exti[line] == (if line / 4 == (offset - 0x08) / 4 {
            port_field(value, line % 4)
        } else {
            w.exti[line]
        }),
{
}

/// The port of a line is a digit of the selection word in base 16.
pub proof fn law_port_fields(value: u32)
    ensures
        port_field(value, 0) == value % 16,
        port_field(value, 1) == (value / 0x10) % 16,
        port_field(value, 2) == (value / 0x100) % 16,
        port_field(value, 3) == (value / 0x1000) % 16,
{
    assert(((value >> 0u32) & 0xF) as u8 == value % 16 && ((value >> 4u32) & 0xF) as u8 == (value
        / 0x10) % 16 && ((value >> 8u32) & 0xF) as u8 == (value / 0x100) % 16 && ((value >> 12u32)
        & 0xF) as u8 == (value / 0x1000) % 16) by (bit_vector);
}

} // verus!
