//! The nested vectored interrupt controller of the Cortex-M4.
//!
//! It holds the register banks (enable, pending, active, priority), the priority grouping
//! and the priorities of the configurable system exceptions, and it decides which pending
//! exception may preempt. It also carries the stack of active exceptions and the reason for
//! which the instruction engine was stopped.
//!
//! Offsets are relative to the system control base 0xE000E000:
//! ISER0-2 0x100, ICER0-2 0x180, ISPR0-2 0x200, ICPR0-2 0x280, IABR0-2 0x300,
//! IPR0-20 0x400, AIRCR 0x00C, SHPR1-3 0xD18/0xD1C/0xD20.
//! Four priority bits are implemented; a lower number is a higher priority.
use crate::bits;
use crate::peripheral::BusError;
use vstd::prelude::*;

verus! {

/// The number of external interrupts.
pub const NVIC_IRQ_COUNT: usize = 82;

/// The number of priority bits; registers keep them in the high bits of a byte.
pub const NVIC_PRIO_BITS: u32 = 4;

/// Start of the register banks.
pub const NVIC_WIN_START: u32 = 0x100;

/// End of the register banks (exclusive).
pub const NVIC_WIN_END: u32 = 0x500;

/// Priority grouping.
pub const AIRCR_OFF: u32 = 0x00C;

/// System exception priorities, one byte each.
pub const SHPR1_OFF: u32 = 0xD18;

pub const SHPR2_OFF: u32 = 0xD1C;

pub const SHPR3_OFF: u32 = 0xD20;

/// End of the system exception priorities (exclusive).
pub const SHPR_END: u32 = 0xD24;

/// The priority threshold that a BASEPRI value stands for: its bits 7 to 4.
pub open spec fn basepri_threshold(raw: u32) -> u8 {
    ((raw >> 4u32) & 0xF) as u8
}

/// The threshold by division.
pub proof fn lemma_threshold(raw: u32)
    ensures
        basepri_threshold(raw) < 16,
        basepri_threshold(raw) == (raw / 16) % 16,
{
    assert((((raw >> 4u32) & 0xF) as u8) < 16u8 && (((raw >> 4u32) & 0xF) as u8) as u32 == (raw
        / 16) % 16) by (bit_vector);
}

/// Turns a BASEPRI register value into the threshold that the selection takes.
pub fn basepri_to_prio(raw: u32) -> (r: u8)
    ensures
        r == basepri_threshold(raw),
        r < 16,
        r == (raw / 16) % 16,
{
    proof {
        lemma_threshold(raw);
    }
    ((raw >> 4u32) & 0xF) as u8
}

/// Why the instruction engine was stopped.
#[derive(Debug, Clone, Copy, PartialEq, Eq, Structural)]
pub enum StopReason {
    /// Nobody asked: the budget ran out.
    Budget,
    /// An exception with this vector number is to be entered.
    Switch(u32),
    /// An exception return was handled; the interrupted context is back.
    ExceptionReturn,
    /// A supervisor call was entered.
    SvcEntry,
    /// Memory protection was switched on and its checks are not in place yet.
    MpuEnable,
    /// A DMA transfer waits for the engine to pause.
    DmaPending,
    /// A debugger breakpoint was hit.
    Breakpoint,
}

/// A register bank of the controller.
#[derive(Debug, Clone, Copy, PartialEq, Eq, Structural)]
pub enum RegBank {
    Iser,
    Icer,
    Ispr,
    Icpr,
    Iabr,
    Ipr,
}

/// The bank that `offset` falls into, with the word index (for priorities: the first of the
/// four interrupts that the word holds).
pub open spec fn bank_of(offset: u32) -> Option<(RegBank, int)> {
    if 0x100 <= offset < 0x10C {
        Some((RegBank::Iser, (offset - 0x100) / 4))
    } else if 0x180 <= offset < 0x18C {
        Some((RegBank::Icer, (offset - 0x180) / 4))
    } else if 0x200 <= offset < 0x20C {
        Some((RegBank::Ispr, (offset - 0x200) / 4))
    } else if 0x280 <= offset < 0x28C {
        Some((RegBank::Icpr, (offset - 0x280) / 4))
    } else if 0x300 <= offset < 0x30C {
        Some((RegBank::Iabr, (offset - 0x300) / 4))
    } else if 0x400 <= offset < 0x454 && offset % 4 == 0 {
        Some((RegBank::Ipr, offset - 0x400))
    } else {
        None
    }
}

fn decode(offset: u32) -> (r: Option<(RegBank, usize)>)
    ensures
        match r {
            None => bank_of(offset) is None,
            Some((b, i)) => bank_of(offset) == Some((b, i as int)),
        },
{
    if offset < NVIC_WIN_START || offset >= NVIC_WIN_END {
        return None;
    }
    if offset >= 0x400 {
        if offset < 0x454 && offset % 4 == 0 {
            return Some((RegBank::Ipr, (offset - 0x400) as usize));
        }
        return None;
    }
    let word = ((offset % 0x80) / 4) as usize;
    if word >= 3 {
        return None;
    }
    if offset < 0x180 {
        Some((RegBank::Iser, word))
    } else if offset < 0x200 {
        Some((RegBank::Icer, word))
    } else if offset < 0x280 {
        Some((RegBank::Ispr, word))
    } else if offset < 0x300 {
        Some((RegBank::Icpr, word))
    } else if offset < 0x380 {
        Some((RegBank::Iabr, word))
    } else {
        None
    }
}

/// The system exception whose priority byte `byte` of the word at `offset` holds. The third
/// word follows the byte-array view: PendSV in byte 2, SysTick in byte 3.
pub open spec fn shpr_vector(offset: u32, byte: int) -> Option<u32> {
    if offset == SHPR1_OFF && 0 <= byte < 3 {
        Some((4 + byte) as u32)
    } else if offset == SHPR2_OFF && byte == 0 {
        Some(11u32)
    } else if offset == SHPR3_OFF && byte == 2 {
        Some(14u32)
    } else if offset == SHPR3_OFF && byte == 3 {
        Some(15u32)
    } else {
        None
    }
}

fn shpr_vectors(offset: u32, byte: u32) -> (r: Option<u32>)
    ensures
        r == shpr_vector(offset, byte as int),
        r matches Some(v) ==> 4 <= v <= 15,
{
    if offset == SHPR1_OFF && byte < 3 {
        Some(4 + byte)
    } else if offset == SHPR2_OFF && byte == 0 {
        Some(11)
    } else if offset == SHPR3_OFF && byte == 2 {
        Some(14)
    } else if offset == SHPR3_OFF && byte == 3 {
        Some(15)
    } else {
        None
    }
}

/// Interrupt controller.
pub struct Nvic {
    enable: [u32; 3],
    pending: [u32; 3],
    sys_pending: u32,
    active: [u32; 3],
    priority: [u8; 82],
    sys_pri: [u8; 12],
    group: u8,
    exception_stack: Vec<u32>,
    callee_stack: Vec<[u32; 8]>,
    stop_reason: StopReason,
    pending_any: bool,
}

/// The state of the controller.
#[verifier::ext_equal]
pub struct NvicView {
    /// Enable bits, 32 interrupts a word.
    pub enable: Seq<u32>,
    /// Pending bits, 32 interrupts a word.
    pub pending: Seq<u32>,
    /// Pending system exceptions, one bit for each vector number.
    pub sys_pending: u32,
    /// Active bits, 32 interrupts a word.
    pub active: Seq<u32>,
    /// The priority of each external interrupt.
    pub priority: Seq<u8>,
    /// The priorities of the vectors 4 to 15.
    pub sys_pri: Seq<u8>,
    /// The priority grouping field.
    pub group: u8,
    /// The active exceptions, innermost last; empty in thread mode.
    pub stack: Seq<u32>,
    /// The registers r4 to r11 of the interrupted contexts, innermost last.
    pub callee: Seq<Seq<u32>>,
    pub stop: StopReason,
    /// The summary flag that lets the engine skip the selection.
    pub pending_any: bool,
}

impl View for Nvic {
    type V = NvicView;

    closed spec fn view(&self) -> NvicView {
        NvicView {
            enable: self.enable@,
            pending: self.pending@,
            sys_pending: self.sys_pending,
            active: self.active@,
            priority: self.priority@,
            sys_pri: self.sys_pri@,
            group: self.group,
            stack: self.exception_stack@,
            callee: Seq::new(self.callee_stack@.len(), |i: int| self.callee_stack@[i]@),
            stop: self.stop_reason,
            pending_any: self.pending_any,
        }
    }
}

/// The number of sub-priority bits under a grouping.
pub open spec fn sub_bits(group: u8) -> int {
    let g = (group & 0x7) as int;
    if 7 - g < 4 {
        4 - (7 - g)
    } else {
        0
    }
}

/// Is `v` the number of an exception whose priority the controller knows?
pub open spec fn known_vector(v: u32) -> bool {
    1 <= v < 98
}

impl NvicView {
    /// The shape of the banks. The running exceptions are ones whose priority is known.
    pub open spec fn wf(self) -> bool {
        &&& self.enable.len() == 3
        &&& self.pending.len() == 3
        &&& self.active.len() == 3
        &&& self.priority.len() == 82
        &&& self.sys_pri.len() == 12
        &&& forall|i: int| 0 <= i < self.stack.len() ==> known_vector(#[trigger] self.stack[i])
        &&& self.stop matches StopReason::Switch(v) ==> known_vector(v)
    }

    /// The controller after reset, with the summary flag as given.
    pub open spec fn fresh(flag: bool) -> NvicView {
        NvicView {
            enable: seq![0u32, 0u32, 0u32],
            pending: seq![0u32, 0u32, 0u32],
            sys_pending: 0,
            active: seq![0u32, 0u32, 0u32],
            priority: Seq::new(82, |i: int| 0u8),
            sys_pri: Seq::new(12, |i: int| 0u8),
            group: 0,
            stack: Seq::empty(),
            callee: Seq::empty(),
            stop: StopReason::Budget,
            pending_any: flag,
        }
    }

    pub open spec fn is_pending(self, irq: int) -> bool {
        bits::has_bit(self.pending[irq / 32], irq % 32)
    }

    pub open spec fn is_enabled(self, irq: int) -> bool {
        bits::has_bit(self.enable[irq / 32], irq % 32)
    }

    pub open spec fn is_active(self, irq: int) -> bool {
        bits::has_bit(self.active[irq / 32], irq % 32)
    }

    pub open spec fn is_sys_pending(self, vector: int) -> bool {
        bits::has_bit(self.sys_pending, vector)
    }

    /// Is anything pending at all?
    pub open spec fn anything_pending(self) -> bool {
        ||| self.pending[0] != 0
        ||| self.pending[1] != 0
        ||| self.pending[2] != 0
        ||| self.sys_pending != 0
    }

    /// The summary flag never misses a pending exception.
    pub open spec fn summary_ok(self) -> bool {
        self.anything_pending() ==> self.pending_any
    }

    pub open spec fn set_pending(self, irq: int) -> NvicView {
        NvicView {
            pending: self.pending.update(irq / 32, self.pending[irq / 32] | bits::bit(irq % 32)),
            pending_any: true,
            ..self
        }
    }

    /// The summary flag computed anew.
    pub open spec fn resummed(self) -> NvicView {
        NvicView { pending_any: self.anything_pending(), ..self }
    }

    pub open spec fn clear_pending(self, irq: int) -> NvicView {
        NvicView {
            pending: self.pending.update(irq / 32, self.pending[irq / 32] & !bits::bit(irq % 32)),
            ..self
        }.resummed()
    }

    pub open spec fn set_sys_pending(self, vector: int) -> NvicView {
        NvicView { sys_pending: self.sys_pending | bits::bit(vector), pending_any: true, ..self }
    }

    pub open spec fn clear_sys_pending(self, vector: int) -> NvicView {
        NvicView { sys_pending: self.sys_pending & !bits::bit(vector), ..self }.resummed()
    }

    pub open spec fn set_active(self, irq: int) -> NvicView {
        NvicView {
            active: self.active.update(irq / 32, self.active[irq / 32] | bits::bit(irq % 32)),
            ..self
        }
    }

    pub open spec fn clear_active(self, irq: int) -> NvicView {
        NvicView {
            active: self.active.update(irq / 32, self.active[irq / 32] & !bits::bit(irq % 32)),
            ..self
        }
    }

    /// The full priority (group and sub-priority) of an external interrupt.
    pub open spec fn irq_priority(self, irq: int) -> u8 {
        self.priority[irq] & 0xF
    }

    /// The part of a priority that decides preemption.
    pub open spec fn preempt_priority(self, raw: u8) -> u8 {
        (raw & 0xF) >> (sub_bits(self.group) as u32)
    }

    /// The priority at which an exception runs. Reset, NMI and hard fault are fixed above
    /// every configurable one.
    pub open spec fn effective_priority(self, vector: int) -> int {
        if vector == 1 {
            -3
        } else if vector == 2 {
            -2
        } else if vector == 3 {
            -1
        } else if 4 <= vector <= 15 {
            (self.sys_pri[vector - 4] & 0xF) as int
        } else {
            self.preempt_priority(self.priority[vector - 16] & 0xF) as int
        }
    }

    /// The priority of the running exception; none in thread mode.
    pub open spec fn current_priority(self) -> Option<int> {
        if self.stack.len() == 0 {
            None
        } else {
            Some(self.effective_priority(self.stack.last() as int))
        }
    }

    /// The running exception is one whose priority is known.
    pub open spec fn top_known(self) -> bool {
        self.stack.len() > 0 ==> known_vector(self.stack.last())
    }

    /// May something of this priority run now? It needs to outrank the running exception.
    pub open spec fn outranks_current(self, prio: int) -> bool {
        self.current_priority() matches Some(c) ==> prio < c
    }

    /// Is `raw` held back by the threshold `basepri`? Zero holds nothing back.
    pub open spec fn masked(basepri: u8, raw: u8) -> bool {
        basepri != 0 && raw >= basepri
    }

    /// May external interrupt `irq` be taken now?
    pub open spec fn candidate(self, basepri: u8, irq: int) -> bool {
        &&& 0 <= irq < 82
        &&& self.is_pending(irq)
        &&& self.is_enabled(irq)
        &&& !Self::masked(basepri, self.irq_priority(irq))
        &&& self.outranks_current(self.preempt_priority(self.irq_priority(irq)) as int)
    }

    /// Which external interrupt is taken: among the candidates the one with the smallest
    /// full priority, among equals the smallest number.
    pub open spec fn selects(self, primask: bool, basepri: u8, r: Option<u32>) -> bool {
        match r {
            None => primask || forall|j: int| 0 <= j < 82 ==> !#[trigger] self.candidate(
                basepri,
                j,
            ),
            Some(i) => {
                &&& !primask
                &&& self.candidate(basepri, i as int)
                &&& forall|j: int| #[trigger]
                    self.candidate(basepri, j) ==> self.irq_priority(i as int) < self.irq_priority(
                        j,
                    ) || self.irq_priority(i as int) == self.irq_priority(j) && i <= j
            },
        }
    }

    /// The full priority of a vector that the selection considers.
    pub open spec fn vector_priority(self, v: int) -> u8 {
        if v < 16 {
            self.sys_pri[v - 4] & 0xF
        } else {
            self.irq_priority(v - 16)
        }
    }

    /// May vector `v` (PendSV, SysTick or an external interrupt) be taken now?
    pub open spec fn vector_candidate(self, basepri: u8, v: int) -> bool {
        if v == 14 || v == 15 {
            &&& self.is_sys_pending(v)
            &&& !Self::masked(basepri, self.vector_priority(v))
            &&& self.outranks_current(self.vector_priority(v) as int)
        } else {
            16 <= v && self.candidate(basepri, v - 16)
        }
    }

    /// Which vector is taken: the candidate with the smallest full priority, among equals
    /// the smallest vector number.
    pub open spec fn selects_vector(self, primask: bool, basepri: u8, r: Option<u32>) -> bool {
        match r {
            None => primask || forall|v: int| !#[trigger] self.vector_candidate(basepri, v),
            Some(i) => {
                &&& !primask
                &&& 14 <= i < 98
                &&& self.vector_candidate(basepri, i as int)
                &&& forall|v: int| #[trigger]
                    self.vector_candidate(basepri, v) ==> self.vector_priority(i as int)
                        < self.vector_priority(v) || self.vector_priority(i as int)
                        == self.vector_priority(v) && i <= v
            },
        }
    }

    /// Byte `k` of the priority word that starts at interrupt `base`.
    pub open spec fn ipr_byte(self, base: int, k: int) -> u8 {
        if base + k < 82 {
            self.priority[base + k] & 0xF
        } else {
            0
        }
    }

    /// Byte `k` of the system priority word at `offset`.
    pub open spec fn shpr_byte(self, offset: u32, k: int) -> u8 {
        match shpr_vector(offset, k) {
            Some(v) => self.sys_pri[v - 4] & 0xF,
            None => 0,
        }
    }

    /// What a register read returns.
    pub open spec fn read(self, offset: u32, size: u32) -> Result<u32, BusError> {
        if size != 4 {
            Err(BusError::NotImplemented)
        } else if offset == AIRCR_OFF {
            Ok(((self.group as u32) & 0x7) << 8u32)
        } else if SHPR1_OFF <= offset < SHPR_END {
            Ok(
                bits::word_of(
                    self.shpr_byte(offset, 0),
                    self.shpr_byte(offset, 1),
                    self.shpr_byte(offset, 2),
                    self.shpr_byte(offset, 3),
                ),
            )
        } else {
            match bank_of(offset) {
                None => Err(BusError::OutOfRange),
                Some((RegBank::Iser, w)) => Ok(self.enable[w]),
                Some((RegBank::Icer, w)) => Ok(self.enable[w]),
                Some((RegBank::Ispr, w)) => Ok(self.pending[w]),
                Some((RegBank::Icpr, w)) => Ok(self.pending[w]),
                Some((RegBank::Iabr, w)) => Ok(self.active[w]),
                Some((RegBank::Ipr, base)) => Ok(
                    bits::word_of(
                        self.ipr_byte(base, 0),
                        self.ipr_byte(base, 1),
                        self.ipr_byte(base, 2),
                        self.ipr_byte(base, 3),
                    ),
                ),
            }
        }
    }

    /// Interrupt `irq` gets priority `p`; numbers past the last interrupt are dropped.
    pub open spec fn with_priority(self, irq: int, p: u8) -> NvicView {
        if irq < 82 {
            NvicView { priority: self.priority.update(irq, p), ..self }
        } else {
            self
        }
    }

    /// The exception that `shpr_vector` names, if any, gets priority `p`.
    pub open spec fn with_sys_priority(self, vector: Option<u32>, p: u8) -> NvicView {
        match vector {
            Some(v) => NvicView { sys_pri: self.sys_pri.update(v - 4, p), ..self },
            None => self,
        }
    }

    /// The state after a register write, and whether the write is served. Byte writes to the
    /// priorities carry the value in the high four bits, word writes in the low four.
    pub open spec fn write(self, offset: u32, size: u32, value: u32) -> (NvicView, Result<
        (),
        BusError,
    >) {
        if size == 1 && 0x400 <= offset < 0x454 {
            (self.with_priority(offset - 0x400, ((value as u8) >> 4u32) & 0xF), Ok(()))
        } else if size == 1 && SHPR1_OFF <= offset < SHPR_END {
            (
                self.with_sys_priority(
                    shpr_vector((offset - offset % 4) as u32, (offset % 4) as int),
                    ((value as u8) >> 4u32) & 0xF,
                ),
                Ok(()),
            )
        } else if size != 4 {
            (self, Err(BusError::NotImplemented))
        } else if offset == AIRCR_OFF {
            if (value >> 16u32) & 0xFFFF == 0x05FA {
                (NvicView { group: ((value >> 8u32) & 0x7) as u8, ..self }, Ok(()))
            } else {
                (self, Ok(()))
            }
        } else if SHPR1_OFF <= offset < SHPR_END {
            (
                self.with_sys_priority(shpr_vector(offset, 0), bits::byte_at(value, 0) & 0xF)
                    .with_sys_priority(
                    shpr_vector(offset, 1),
                    bits::byte_at(value, 1) & 0xF,
                ).with_sys_priority(
                    shpr_vector(offset, 2),
                    bits::byte_at(value, 2) & 0xF,
                ).with_sys_priority(shpr_vector(offset, 3), bits::byte_at(value, 3) & 0xF),
                Ok(()),
            )
        } else {
            match bank_of(offset) {
                None => (self, Err(BusError::OutOfRange)),
                Some((RegBank::Iser, w)) => (
                    NvicView { enable: self.enable.update(w, self.enable[w] | value), ..self },
                    Ok(()),
                ),
                Some((RegBank::Icer, w)) => (
                    NvicView { enable: self.enable.update(w, self.enable[w] & !value), ..self },
                    Ok(()),
                ),
                Some((RegBank::Ispr, w)) => (
                    NvicView {
                        pending: self.pending.update(w, self.pending[w] | value),
                        ..self
                    }.resummed(),
                    Ok(()),
                ),
                Some((RegBank::Icpr, w)) => (
                    NvicView {
                        pending: self.pending.update(w, self.pending[w] & !value),
                        ..self
                    }.resummed(),
                    Ok(()),
                ),
                Some((RegBank::Iabr, w)) => (self, Ok(())),
                Some((RegBank::Ipr, base)) => (
                    self.with_priority(base, bits::byte_at(value, 0) & 0xF).with_priority(
                        base + 1,
                        bits::byte_at(value, 1) & 0xF,
                    ).with_priority(base + 2, bits::byte_at(value, 2) & 0xF).with_priority(
                        base + 3,
                        bits::byte_at(value, 3) & 0xF,
                    ),
                    Ok(()),
                ),
            }
        }
    }
}

impl Default for Nvic {
    fn default() -> (r: Self)
        ensures
            r@ == NvicView::fresh(false),
    {
        Nvic::new()
    }
}

impl Nvic {
    pub fn new() -> (r: Self)
        ensures
            r@ == NvicView::fresh(false),
    {
        Self::with_pending_any(false)
    }

    /// Starts with the summary flag as given.
    pub fn with_pending_any(flag: bool) -> (r: Self)
        ensures
            r@ == NvicView::fresh(flag),
    {
        let r = Nvic {
            enable: bits::filled(0),
            pending: bits::filled(0),
            sys_pending: 0,
            active: bits::filled(0),
            priority: bits::filled(0),
            sys_pri: bits::filled(0),
            group: 0,
            exception_stack: Vec::new(),
            callee_stack: Vec::new(),
            stop_reason: StopReason::Budget,
            pending_any: flag,
        };
        assert(r@ =~= NvicView::fresh(flag));
        r
    }

    /// Only exceptions whose priority is known are running, or about to.
    #[verifier::type_invariant]
    spec fn in_shape(self) -> bool {
        &&& forall|i: int|
            0 <= i < self.exception_stack@.len() ==> known_vector(#[trigger] self.exception_stack@[i])
        &&& self.stop_reason matches StopReason::Switch(v) ==> known_vector(v)
    }

    /// What the type promises: the controller is in shape.
    pub fn shape(&self)
        ensures
            self@.wf(),
            self@.top_known(),
    {
        proof {
            use_type_invariant(&*self);
        }
    }

    pub fn is_pending(&self, irq: u32) -> (r: bool)
        requires
            irq < 96,
        ensures
            r == self@.is_pending(irq as int),
    {
        self.pending[(irq / 32) as usize] & (1u32 << (irq % 32)) != 0
    }

    pub fn is_enabled(&self, irq: u32) -> (r: bool)
        requires
            irq < 96,
        ensures
            r == self@.is_enabled(irq as int),
    {
        self.enable[(irq / 32) as usize] & (1u32 << (irq % 32)) != 0
    }

    pub fn priority(&self, irq: u32) -> (r: u8)
        requires
            irq < 82,
        ensures
            r == self@.irq_priority(irq as int),
    {
        self.priority[irq as usize] & 0xF
    }

    pub fn set_pending(&mut self, irq: u32)
        requires
            irq < 96,
        ensures
            final(self)@ == old(self)@.set_pending(irq as int),
    {
        proof {
            use_type_invariant(&*self);
        }
        let w = (irq / 32) as usize;
        self.pending[w] = self.pending[w] | (1u32 << (irq % 32));
        self.pending_any = true;
    }

    pub fn clear_pending(&mut self, irq: u32)
        requires
            irq < 96,
        ensures
            final(self)@ == old(self)@.clear_pending(irq as int),
    {
        proof {
            use_type_invariant(&*self);
        }
        let w = (irq / 32) as usize;
        self.pending[w] = self.pending[w] & !(1u32 << (irq % 32));
        self.sync_pending_any();
    }

    /// Makes a system exception pending. The bit is a level: setting it again changes nothing.
    pub fn set_sys_pending(&mut self, vector: u32)
        requires
            vector < 32,
        ensures
            final(self)@ == old(self)@.set_sys_pending(vector as int),
    {
        proof {
            use_type_invariant(&*self);
        }
        self.sys_pending = self.sys_pending | (1u32 << vector);
        self.pending_any = true;
    }

    pub fn clear_sys_pending(&mut self, vector: u32)
        requires
            vector < 32,
        ensures
            final(self)@ == old(self)@.clear_sys_pending(vector as int),
    {
        proof {
            use_type_invariant(&*self);
        }
        self.sys_pending = self.sys_pending & !(1u32 << vector);
        self.sync_pending_any();
    }

    pub fn is_sys_pending(&self, vector: u32) -> (r: bool)
        requires
            vector < 32,
        ensures
            r == self@.is_sys_pending(vector as int),
    {
        self.sys_pending & (1u32 << vector) != 0
    }

    /// The summary flag: false only if nothing is pending.
    pub fn pending_any(&self) -> (r: bool)
        ensures
            r == self@.pending_any,
    {
        self.pending_any
    }

    fn sync_pending_any(&mut self)
        ensures
            final(self)@ == old(self)@.resummed(),
    {
        proof {
            use_type_invariant(&*self);
        }
        self.pending_any = self.pending[0] != 0 || self.pending[1] != 0 || self.pending[2] != 0
            || self.sys_pending != 0;
    }

    pub fn set_active(&mut self, irq: u32)
        requires
            irq < 96,
        ensures
            final(self)@ == old(self)@.set_active(irq as int),
    {
        proof {
            use_type_invariant(&*self);
        }
        let w = (irq / 32) as usize;
        self.active[w] = self.active[w] | (1u32 << (irq % 32));
    }

    pub fn clear_active(&mut self, irq: u32)
        requires
            irq < 96,
        ensures
            final(self)@ == old(self)@.clear_active(irq as int),
    {
        proof {
            use_type_invariant(&*self);
        }
        let w = (irq / 32) as usize;
        self.active[w] = self.active[w] & !(1u32 << (irq % 32));
    }

    /// The numbers of preemption bits and of sub-priority bits under a grouping.
    fn group_splits(group: u8) -> (r: (u32, u32))
        ensures
            r.1 == sub_bits(group),
            r.0 + r.1 == 4,
    {
        proof {
            bits::lemma_mask8(group, 0x7);
        }
        let g = (group & 0x7) as u32;
        let pre: u32 = if 7 - g < 4 {
            7 - g
        } else {
            4
        };
        (pre, 4 - pre)
    }

    fn preempt_priority(&self, raw: u8) -> (r: u8)
        ensures
            r == self@.preempt_priority(raw),
    {
        let (_, sub) = Self::group_splits(self.group);
        (raw & 0xF) >> sub
    }

    fn effective_priority(&self, vector: u32) -> (r: i32)
        requires
            known_vector(vector),
        ensures
            r == self@.effective_priority(vector as int),
    {
        if vector == 1 {
            -3
        } else if vector == 2 {
            -2
        } else if vector == 3 {
            -1
        } else if vector <= 15 {
            (self.sys_pri[(vector - 4) as usize] & 0xF) as i32
        } else {
            self.preempt_priority(self.priority[(vector - 16) as usize] & 0xF) as i32
        }
    }

    /// The priority of the running exception; none in thread mode.
    pub fn current_priority(&self) -> (r: Option<i32>)
        ensures
            match r {
                None => self@.current_priority() is None,
                Some(p) => self@.current_priority() == Some(p as int),
            },
    {
        self.shape();
        let n = self.exception_stack.len();
        if n == 0 {
            None
        } else {
            Some(self.effective_priority(self.exception_stack[n - 1]))
        }
    }

    /// Is an exception running?
    pub fn in_handler(&self) -> (r: bool)
        ensures
            r == (self@.stack.len() > 0),
    {
        self.exception_stack.len() > 0
    }

    fn is_candidate(&self, basepri: u8, cur: Option<i32>, irq: u32) -> (r: bool)
        requires
            irq < 82,
            match cur {
                None => self@.current_priority() is None,
                Some(p) => self@.current_priority() == Some(p as int),
            },
        ensures
            r == self@.candidate(basepri, irq as int),
    {
        if !self.is_pending(irq) || !self.is_enabled(irq) {
            return false;
        }
        let raw = self.priority(irq);
        if basepri != 0 && raw >= basepri {
            return false;
        }
        let pre = self.preempt_priority(raw);
        match cur {
            Some(c) => (pre as i32) < c,
            None => true,
        }
    }

    /// Selects the external interrupt that is taken now.
    pub fn select_pending(&self, primask: bool, basepri: u8) -> (r: Option<u32>)
        ensures
            self@.selects(primask, basepri, r),
    {
        self.shape();
        if primask {
            return None;
        }
        let cur = self.current_priority();
        let mut best: Option<u32> = None;
        let mut irq: u32 = 0;
        while irq < 82
            invariant
                irq <= 82,
                match cur {
                    None => self@.current_priority() is None,
                    Some(p) => self@.current_priority() == Some(p as int),
                },
                match best {
                    None => forall|j: int| 0 <= j < irq ==> !#[trigger] self@.candidate(basepri, j),
                    Some(i) => {
                        &&& i < irq
                        &&& self@.candidate(basepri, i as int)
                        &&& forall|j: int|
                            0 <= j < irq && #[trigger] self@.candidate(basepri, j)
                                ==> self@.irq_priority(i as int) < self@.irq_priority(j)
                                || self@.irq_priority(i as int) == self@.irq_priority(j) && i <= j
                    },
                },
            decreases 82 - irq,
        {
            if self.is_candidate(basepri, cur, irq) {
                let better = match best {
                    None => true,
                    Some(b) => self.priority(irq) < self.priority(b),
                };
                if better {
                    best = Some(irq);
                }
            }
            irq = irq + 1;
        }
        best
    }

    fn prio_of_vector(&self, v: u32) -> (r: u8)
        requires
            v == 14 || v == 15 || 16 <= v < 98,
        ensures
            r == self@.vector_priority(v as int),
    {
        if v < 16 {
            self.sys_pri[(v - 4) as usize] & 0xF
        } else {
            self.priority(v - 16)
        }
    }

    /// Selects the vector that is taken now: PendSV, SysTick and the external interrupts
    /// compete with each other.
    pub fn select_pending_vector(&self, primask: bool, basepri: u8) -> (r: Option<u32>)
        ensures
            self@.selects_vector(primask, basepri, r),
    {
        self.shape();
        if primask {
            return None;
        }
        let cur = self.current_priority();
        let mut best: Option<u32> = None;
        let mut v: u32 = 14;
        while v < 98
            invariant
                14 <= v <= 98,
                match cur {
                    None => self@.current_priority() is None,
                    Some(p) => self@.current_priority() == Some(p as int),
                },
                match best {
                    None => forall|j: int| j < v ==> !#[trigger] self@.vector_candidate(basepri, j),
                    Some(i) => {
                        &&& 14 <= i < v
                        &&& self@.vector_candidate(basepri, i as int)
                        &&& forall|j: int|
                            j < v && #[trigger] self@.vector_candidate(basepri, j)
                                ==> self@.vector_priority(i as int) < self@.vector_priority(j)
                                || self@.vector_priority(i as int) == self@.vector_priority(j) && i
                                <= j
                    },
                },
            decreases 98 - v,
        {
            let ok = if v < 16 {
                let raw = self.sys_pri[(v - 4) as usize] & 0xF;
                let outranks = match cur {
                    Some(c) => (raw as i32) < c,
                    None => true,
                };
                self.is_sys_pending(v) && !(basepri != 0 && raw >= basepri) && outranks
            } else {
                self.is_candidate(basepri, cur, v - 16)
            };
            if ok {
                let better = match best {
                    None => true,
                    Some(b) => self.prio_of_vector(v) < self.prio_of_vector(b),
                };
                if better {
                    best = Some(v);
                }
            }
            v = v + 1;
        }
        best
    }

    pub fn push_exception(&mut self, vector: u32)
        requires
            known_vector(vector),
        ensures
            final(self)@ == (NvicView { stack: old(self)@.stack.push(vector), ..old(self)@ }),
    {
        proof {
            use_type_invariant(&*self);
        }
        let mut stack: Vec<u32> = Vec::new();
        std::mem::swap(&mut stack, &mut self.exception_stack);
        stack.push(vector);
        self.exception_stack = stack;
    }

    /// Keeps r4 to r11 of the context that an exception interrupts.
    pub fn push_callee(&mut self, callee: [u32; 8])
        ensures
            final(self)@ == (NvicView { callee: old(self)@.callee.push(callee@), ..old(self)@ }),
    {
        proof {
            use_type_invariant(&*self);
        }
        let mut kept: Vec<[u32; 8]> = Vec::new();
        std::mem::swap(&mut kept, &mut self.callee_stack);
        kept.push(callee);
        self.callee_stack = kept;
        assert(self@.callee =~= old(self)@.callee.push(callee@));
    }

    pub fn pop_callee(&mut self) -> (r: Option<[u32; 8]>)
        ensures
            old(self)@.callee.len() == 0 ==> r is None && final(self)@ == old(self)@,
            old(self)@.callee.len() > 0 ==> {
                &&& r matches Some(c) && c@ == old(self)@.callee.last()
                &&& final(self)@ == (NvicView {
                    callee: old(self)@.callee.drop_last(),
                    ..old(self)@
                })
            },
    {
        proof {
            use_type_invariant(&*self);
        }
        let mut kept: Vec<[u32; 8]> = Vec::new();
        std::mem::swap(&mut kept, &mut self.callee_stack);
        let r = kept.pop();
        self.callee_stack = kept;
        assert(self@.callee =~= if r is Some {
            old(self)@.callee.drop_last()
        } else {
            old(self)@.callee
        });
        r
    }

    pub fn pop_exception(&mut self) -> (r: Option<u32>)
        ensures
            old(self)@.stack.len() == 0 ==> r is None && final(self)@ == old(self)@,
            old(self)@.stack.len() > 0 ==> r == Some(old(self)@.stack.last()) && final(self)@ == (
            NvicView { stack: old(self)@.stack.drop_last(), ..old(self)@ }),
    {
        proof {
            use_type_invariant(&*self);
        }
        let mut stack: Vec<u32> = Vec::new();
        std::mem::swap(&mut stack, &mut self.exception_stack);
        let r = stack.pop();
        self.exception_stack = stack;
        r
    }

    /// The number of the running exception, 0 in thread mode.
    pub fn current_exception(&self) -> (r: u32)
        ensures
            r == (if self@.stack.len() == 0 {
                0
            } else {
                self@.stack.last()
            }),
    {
        let n = self.exception_stack.len();
        if n == 0 {
            0
        } else {
            self.exception_stack[n - 1]
        }
    }

    pub fn set_stop_reason(&mut self, r: StopReason)
        requires
            r matches StopReason::Switch(v) ==> known_vector(v),
        ensures
            final(self)@ == (NvicView { stop: r, ..old(self)@ }),
    {
        proof {
            use_type_invariant(&*self);
        }
        self.stop_reason = r;
    }

    /// The stop reason.
    pub fn stop_reason(&self) -> (r: StopReason)
        ensures
            r == self@.stop,
    {
        self.stop_reason
    }

    /// Hands out the stop reason and forgets it.
    pub fn take_stop_reason(&mut self) -> (r: StopReason)
        ensures
            r == old(self)@.stop,
            final(self)@ == (NvicView { stop: StopReason::Budget, ..old(self)@ }),
    {
        proof {
            use_type_invariant(&*self);
        }
        let r = self.stop_reason;
        self.stop_reason = StopReason::Budget;
        r
    }

    fn ipr_byte(&self, irq: usize) -> (r: u8)
        requires
            irq < 90,
        ensures
            r == self@.ipr_byte(irq as int, 0),
    {
        if irq < 82 {
            self.priority[irq] & 0xF
        } else {
            0
        }
    }

    fn shpr_byte(&self, offset: u32, byte: u32) -> (r: u8)
        ensures
            r == self@.shpr_byte(offset, byte as int),
    {
        match shpr_vectors(offset, byte) {
            Some(v) => self.sys_pri[(v - 4) as usize] & 0xF,
            None => 0,
        }
    }

    fn read_shpr(&self, offset: u32) -> (r: u32)
        ensures
            r == bits::word_of(
                self@.shpr_byte(offset, 0),
                self@.shpr_byte(offset, 1),
                self@.shpr_byte(offset, 2),
                self@.shpr_byte(offset, 3),
            ),
    {
        bits::le_word(
            self.shpr_byte(offset, 0),
            self.shpr_byte(offset, 1),
            self.shpr_byte(offset, 2),
            self.shpr_byte(offset, 3),
        )
    }

    pub fn read(&self, offset: u32, size: u32) -> (r: Result<u32, BusError>)
        ensures
            r == self@.read(offset, size),
    {
        if size != 4 {
            return Err(BusError::NotImplemented);
        }
        if offset == AIRCR_OFF {
            return Ok(((self.group as u32) & 0x7) << 8u32);
        }
        if offset >= SHPR1_OFF && offset < SHPR_END {
            return Ok(self.read_shpr(offset));
        }
        match decode(offset) {
            None => Err(BusError::OutOfRange),
            Some((RegBank::Iser, w)) => Ok(self.enable[w]),
            Some((RegBank::Icer, w)) => Ok(self.enable[w]),
            Some((RegBank::Ispr, w)) => Ok(self.pending[w]),
            Some((RegBank::Icpr, w)) => Ok(self.pending[w]),
            Some((RegBank::Iabr, w)) => Ok(self.active[w]),
            Some((RegBank::Ipr, base)) => Ok(
                bits::le_word(
                    self.ipr_byte(base),
                    self.ipr_byte(base + 1),
                    self.ipr_byte(base + 2),
                    self.ipr_byte(base + 3),
                ),
            ),
        }
    }

    fn put_priority(&mut self, irq: usize, p: u8)
        ensures
            final(self)@ == old(self)@.with_priority(irq as int, p),
    {
        proof {
            use_type_invariant(&*self);
        }
        if irq < 82 {
            self.priority[irq] = p;
        }
    }

    fn put_sys_priority(&mut self, vector: Option<u32>, p: u8)
        requires
            vector matches Some(v) ==> 4 <= v <= 15,
        ensures
            final(self)@ == old(self)@.with_sys_priority(vector, p),
    {
        proof {
            use_type_invariant(&*self);
        }
        if let Some(v) = vector {
            self.sys_pri[(v - 4) as usize] = p;
        }
    }

    pub fn write(&mut self, offset: u32, size: u32, value: u32) -> (r: Result<(), BusError>)
        ensures
            (final(self)@, r) == old(self)@.write(offset, size, value),
    {
        proof {
            use_type_invariant(&*self);
        }
        if size == 1 && offset >= 0x400 && offset < 0x454 {
            self.put_priority((offset - 0x400) as usize, ((value as u8) >> 4u32) & 0xF);
            return Ok(());
        }
        if size == 1 && offset >= SHPR1_OFF && offset < SHPR_END {
            let vector = shpr_vectors(offset - offset % 4, offset % 4);
            self.put_sys_priority(vector, ((value as u8) >> 4u32) & 0xF);
            return Ok(());
        }
        if size != 4 {
            return Err(BusError::NotImplemented);
        }
        if offset == AIRCR_OFF {
            if (value >> 16u32) & 0xFFFF == 0x05FA {
                self.group = ((value >> 8u32) & 0x7) as u8;
            }
            return Ok(());
        }
        if offset >= SHPR1_OFF && offset < SHPR_END {
            self.put_sys_priority(shpr_vectors(offset, 0), bits::byte_of(value, 0) & 0xF);
            self.put_sys_priority(shpr_vectors(offset, 1), bits::byte_of(value, 1) & 0xF);
            self.put_sys_priority(shpr_vectors(offset, 2), bits::byte_of(value, 2) & 0xF);
            self.put_sys_priority(shpr_vectors(offset, 3), bits::byte_of(value, 3) & 0xF);
            return Ok(());
        }
        match decode(offset) {
            None => Err(BusError::OutOfRange),
            Some((RegBank::Iser, w)) => {
                self.enable[w] = self.enable[w] | value;
                Ok(())
            },
            Some((RegBank::Icer, w)) => {
                self.enable[w] = self.enable[w] & !value;
                Ok(())
            },
            Some((RegBank::Ispr, w)) => {
                self.pending[w] = self.pending[w] | value;
                self.sync_pending_any();
                Ok(())
            },
            Some((RegBank::Icpr, w)) => {
                self.pending[w] = self.pending[w] & !value;
                self.sync_pending_any();
                Ok(())
            },
            Some((RegBank::Iabr, w)) => Ok(()),
            Some((RegBank::Ipr, base)) => {
                self.put_priority(base, bits::byte_of(value, 0) & 0xF);
                self.put_priority(base + 1, bits::byte_of(value, 1) & 0xF);
                self.put_priority(base + 2, bits::byte_of(value, 2) & 0xF);
                self.put_priority(base + 3, bits::byte_of(value, 3) & 0xF);
                Ok(())
            },
        }
    }
}

/// Making an interrupt pending adds it to the pending ones and touches no other.
pub proof fn law_set_pending(n: NvicView, irq: int, j: int)
    requires
        n.wf(),
        0 <= irq < 96,
        0 <= j < 96,
    ensures
        n.set_pending(irq).is_pending(j) == (j == irq || n.is_pending(j)),
        n.set_pending(irq).is_enabled(j) == n.is_enabled(j),
{
    bits::lemma_set_bit(n.pending[irq / 32], irq % 32, j % 32);
}

/// Clearing an interrupt removes it from the pending ones and touches no other.
pub proof fn law_clear_pending(n: NvicView, irq: int, j: int)
    requires
        n.wf(),
        0 <= irq < 96,
        0 <= j < 96,
    ensures
        n.clear_pending(irq).is_pending(j) == (j != irq && n.is_pending(j)),
        n.clear_pending(irq).is_enabled(j) == n.is_enabled(j),
{
    bits::lemma_clear_bit(n.pending[irq / 32], irq % 32, j % 32);
}

/// The same for the active bits: one call undoes the other.
pub proof fn law_active_set_then_clear(n: NvicView, irq: int, j: int)
    requires
        n.wf(),
        0 <= irq < 96,
        0 <= j < 96,
    ensures
        n.set_active(irq).is_active(j) == (j == irq || n.is_active(j)),
        n.set_active(irq).clear_active(irq).is_active(j) == (j != irq && n.is_active(j)),
{
    bits::lemma_set_bit(n.active[irq / 32], irq % 32, j % 32);
    bits::lemma_clear_bit(n.set_active(irq).active[irq / 32], irq % 32, j % 32);
    if j / 32 == irq / 32 {
        bits::lemma_set_bit(n.active[irq / 32], irq % 32, j % 32);
    }
}

/// A system exception is pending after it was set and not after it was cleared.
pub proof fn law_sys_pending(n: NvicView, v: int, j: int)
    requires
        0 <= v < 32,
        0 <= j < 32,
    ensures
        n.set_sys_pending(v).is_sys_pending(j) == (j == v || n.is_sys_pending(j)),
        n.clear_sys_pending(v).is_sys_pending(j) == (j != v && n.is_sys_pending(j)),
{
    bits::lemma_set_bit(n.sys_pending, v, j);
    bits::lemma_clear_bit(n.sys_pending, v, j);
}

/// No operation lets the summary flag miss a pending exception.
pub proof fn law_summary_kept(n: NvicView, irq: int, v: int, offset: u32, size: u32, value: u32)
    requires
        n.wf(),
        n.summary_ok(),
        0 <= irq < 96,
        0 <= v < 32,
    ensures
        NvicView::fresh(false).summary_ok(),
        NvicView::fresh(true).summary_ok(),
        n.set_pending(irq).summary_ok(),
        n.clear_pending(irq).summary_ok(),
        n.set_sys_pending(v).summary_ok(),
        n.clear_sys_pending(v).summary_ok(),
        n.set_active(irq).summary_ok(),
        n.clear_active(irq).summary_ok(),
        n.write(offset, size, value).0.summary_ok(),
        n.write(offset, size, value).0.wf(),
{
}

/// While the summary flag is down nothing is selected: the engine may skip the selection.
pub proof fn law_no_summary_no_selection(n: NvicView, primask: bool, basepri: u8, r: Option<u32>)
    requires
        n.wf(),
        n.summary_ok(),
        !n.pending_any,
        n.selects(primask, basepri, r) || n.selects_vector(primask, basepri, r),
    ensures
        r is None,
{
    assert forall|j: int| 0 <= j < 82 implies !#[trigger] n.candidate(basepri, j) by {
        bits::lemma_mask(n.pending[j / 32], bits::bit(j % 32));
        bits::lemma_mask(bits::bit(j % 32), 0);
    }
    if let Some(i) = r {
        if i < 16 {
            bits::lemma_mask(bits::bit(i as int), 0);
        } else {
            assert(!n.candidate(basepri, i - 16));
        }
        if i < 82 {
            assert(!n.candidate(basepri, i as int));
        }
        if n.selects_vector(primask, basepri, r) {
            assert(n.vector_candidate(basepri, i as int));
        }
    }
}

/// Two selections on one state agree.
pub proof fn law_selection_is_unique(
    n: NvicView,
    primask: bool,
    basepri: u8,
    a: Option<u32>,
    b: Option<u32>,
)
    ensures
        n.selects(primask, basepri, a) && n.selects(primask, basepri, b) ==> a == b,
        n.selects_vector(primask, basepri, a) && n.selects_vector(primask, basepri, b) ==> a == b,
{
    if let Some(i) = a {
        if n.selects(primask, basepri, a) && n.selects(primask, basepri, b) {
            assert(n.candidate(basepri, i as int));
        }
        if n.selects_vector(primask, basepri, a) && n.selects_vector(primask, basepri, b) {
            assert(n.vector_candidate(basepri, i as int));
        }
    }
    if let Some(i) = b {
        if n.selects(primask, basepri, a) && n.selects(primask, basepri, b) {
            assert(n.candidate(basepri, i as int));
        }
        if n.selects_vector(primask, basepri, a) && n.selects_vector(primask, basepri, b) {
            assert(n.vector_candidate(basepri, i as int));
        }
    }
}

/// The two selections on one state. Without a pending PendSV or SysTick the vector is that of
/// the interrupt, 16 above its number. A vector that is taken is pending, and enabled if it is
/// an interrupt; and an interrupt is taken only if it outranks the system exceptions that could
/// be taken: they win a tie.
pub proof fn law_vector_follows_interrupt(
    n: NvicView,
    primask: bool,
    basepri: u8,
    irq: Option<u32>,
    vector: Option<u32>,
)
    requires
        n.selects(primask, basepri, irq),
        n.selects_vector(primask, basepri, vector),
    ensures
        primask ==> vector is None,
        !n.is_sys_pending(14) && !n.is_sys_pending(15) ==> match irq {
            Some(i) => vector == Some((16 + i) as u32),
            None => vector is None,
        },
        vector matches Some(v) ==> {
            ||| (v == 14 || v == 15) && n.is_sys_pending(v as int)
            ||| 16 <= v <= 97 && n.is_pending(v - 16) && n.is_enabled(v - 16)
        },
        vector matches Some(v) ==> v >= 16 ==> irq == Some((v - 16) as u32),
        forall|s: int|
            (s == 14 || s == 15) && #[trigger] n.vector_candidate(basepri, s) && !primask ==> {
                &&& vector is Some
                &&& irq matches Some(i) ==> n.vector_priority(s) <= n.irq_priority(i as int)
                    ==> vector->0 < 16
            },
{
    if let Some(i) = irq {
        assert(n.candidate(basepri, i as int));
        assert(n.vector_candidate(basepri, 16 + i));
    }
    if let Some(v) = vector {
        assert(n.vector_candidate(basepri, v as int));
        if v >= 16 {
            assert(n.candidate(basepri, v - 16));
            if let Some(i) = irq {
                assert(n.vector_candidate(basepri, 16 + i));
            }
        }
    }
}

/// An interrupt whose priority is at or below the threshold is never taken, and nothing is
/// taken that does not outrank the running exception.
pub proof fn law_selected_is_allowed(n: NvicView, basepri: u8, r: u32)
    requires
        n.selects_vector(false, basepri, Some(r)),
    ensures
        basepri != 0 ==> n.vector_priority(r as int) < basepri,
        n.current_priority() matches Some(c) ==> (if r < 16 {
            n.vector_priority(r as int) as int
        } else {
            n.preempt_priority(n.vector_priority(r as int)) as int
        }) < c,
{
    assert(n.vector_candidate(basepri, r as int));
}

/// A word written to the priority bank reads back with four bits a byte.
pub proof fn law_ipr_roundtrip(n: NvicView, offset: u32, value: u32)
    requires
        n.wf(),
        0x400 <= offset < 0x450,
        offset % 4 == 0,
    ensures
        n.write(offset, 4, value).1 is Ok,
        n.write(offset, 4, value).0.read(offset, 4) == Ok::<u32, BusError>(
            bits::word_of(
                bits::byte_at(value, 0) & 0xF,
                bits::byte_at(value, 1) & 0xF,
                bits::byte_at(value, 2) & 0xF,
                bits::byte_at(value, 3) & 0xF,
            ),
        ),
{
    bits::lemma_mask8(bits::byte_at(value, 0), 0xF);
    bits::lemma_mask8(bits::byte_at(value, 1), 0xF);
    bits::lemma_mask8(bits::byte_at(value, 2), 0xF);
    bits::lemma_mask8(bits::byte_at(value, 3), 0xF);
}

/// The grouping changes only with the key, and then reads back.
pub proof fn law_grouping_needs_the_key(n: NvicView, value: u32)
    requires
        n.wf(),
    ensures
        (value >> 16u32) & 0xFFFF != 0x05FA ==> n.write(AIRCR_OFF, 4, value).0 == n,
        (value >> 16u32) & 0xFFFF == 0x05FA ==> n.write(AIRCR_OFF, 4, value).0.read(AIRCR_OFF, 4)
            == Ok::<u32, BusError>(value & 0x700),
{
    let g = ((value >> 8u32) & 0x7) as u8;
    assert(g == ((value >> 8u32) & 0x7) as u8 ==> ((g as u32) & 0x7) << 8u32 == value & 0x700)
        by (bit_vector);
}

/// Which vectors are ready: PendSV and SysTick if they are pending, an interrupt if it is pending
/// and enabled; their priority is below a threshold that is not zero; and the part of it that
/// decides preemption is below that of the running exception. Nothing is ready past the last
/// interrupt, and PRIMASK holds everything back. Among the ready ones the smallest full priority
/// is taken, and among equals the smallest vector. `k` is the number of sub-priority bits.
pub proof fn law_selection_by_rank(
    n: NvicView,
    primask: bool,
    basepri: u8,
    r: Option<u32>,
    v: u32,
    k: u32,
    running: int,
)
    requires
        n.wf(),
        n.selects_vector(primask, basepri, r),
        14 <= v < 98,
        (n.group & 7) <= 3 && k == 0 || (n.group & 7) == 4 && k == 1 || (n.group & 7) == 5 && k == 2
            || (n.group & 7) == 6 && k == 3 || (n.group & 7) == 7 && k == 4,
        n.stack.len() == 0 && running == 16 || n.stack.len() > 0 && ({
            let t = n.stack[n.stack.len() - 1];
            ||| t < 4 && running == t - 4
            ||| 4 <= t < 16 && running == n.sys_pri[t - 4] & 0xF
            ||| t >= 16 && running == (n.priority[t - 16] & 0xF) >> k
        }),
    ensures
        ({
            let full = if v < 16 {
                n.sys_pri[v - 4] & 0xF
            } else {
                n.priority[v - 16] & 0xF
            };
            let pre = if v < 16 {
                full
            } else {
                full >> k
            };
            let asked = if v < 16 {
                bits::has_bit(n.sys_pending, v as int)
            } else {
                bits::has_bit(n.pending[(v - 16) / 32], (v - 16) % 32) && bits::has_bit(
                    n.enable[(v - 16) / 32],
                    (v - 16) % 32,
                )
            };
            let ready = asked && (basepri == 0 || full < basepri) && pre < running;
            &&& primask ==> r is None
            &&& r is None && ready ==> primask
            &&& r == Some(v) ==> ready
            &&& r matches Some(u) ==> 14 <= u < 98 && ready ==> {
                let best = if u < 16 {
                    n.sys_pri[u - 4] & 0xF
                } else {
                    n.priority[u - 16] & 0xF
                };
                best < full || best == full && u <= v
            }
        }),
{
    let full = n.vector_priority(v as int);
    bits::lemma_mask8(full, 0xF);
    assert(sub_bits(n.group) == k);
    assert(n.current_priority() matches Some(c) ==> c == running) by {
        if n.stack.len() > 0 {
            let t = n.stack[n.stack.len() - 1];
            assert(known_vector(t));
            if t >= 16 {
                bits::lemma_mask8(n.priority[t - 16], 0xF);
            }
        }
    }
    if v >= 16 {
        bits::lemma_mask8(n.priority[v - 16], 0xF);
        lemma_shrinks(n.priority[v - 16] & 0xF, k);
        assert(n.vector_candidate(basepri, v as int) == n.candidate(basepri, v - 16));
    } else {
        bits::lemma_mask8(n.sys_pri[v - 4], 0xF);
        assert(n.vector_candidate(basepri, v as int) <==> n.is_sys_pending(v as int) && (basepri == 0
            || full < basepri) && n.outranks_current(full as int));
    }
    if let Some(u) = r {
        assert(n.vector_candidate(basepri, u as int));
    }
}

proof fn lemma_shrinks(x: u8, k: u32)
    requires
        x < 16,
        k <= 4,
    ensures
        x >> k < 16,
{
    assert(x < 16 && k <= 4 ==> x >> k < 16) by (bit_vector);
}

/// The words of the enable and pending banks: the two set words add the ones that are written,
/// the two clear words take them away; each bank reads the same in both places, and an interrupt
/// has its bit at its number.
pub proof fn law_banks(n: NvicView, word: u32, value: u32, irq: int)
    requires
        n.wf(),
        word < 3,
        0 <= irq < 96,
    ensures
        ({
            let mine = irq / 32 == word;
            let bit = bits::has_bit(value, irq % 32);
            let at = |o: u32| (o + 4 * word) as u32;
            let en = n.write(at(0x100), 4, value).0;
            let dis = n.write(at(0x180), 4, value).0;
            let pend = n.write(at(0x200), 4, value).0;
            let unpend = n.write(at(0x280), 4, value).0;
            &&& en.is_enabled(irq) == (n.is_enabled(irq) || mine && bit)
            &&& dis.is_enabled(irq) == (n.is_enabled(irq) && !(mine && bit))
            &&& pend.is_pending(irq) == (n.is_pending(irq) || mine && bit)
            &&& unpend.is_pending(irq) == (n.is_pending(irq) && !(mine && bit))
            &&& en.pending == n.pending && dis.pending == n.pending
            &&& pend.enable == n.enable && unpend.enable == n.enable
            &&& n.write(at(0x300), 4, value).0 == n
            &&& n.read(at(0x100), 4) == Ok::<u32, BusError>(n.enable[word as int])
            &&& n.read(at(0x180), 4) == Ok::<u32, BusError>(n.enable[word as int])
            &&& n.read(at(0x200), 4) == Ok::<u32, BusError>(n.pending[word as int])
            &&& n.read(at(0x280), 4) == Ok::<u32, BusError>(n.pending[word as int])
            &&& n.read(at(0x300), 4) == Ok::<u32, BusError>(n.active[word as int])
        }),
{
    let b = irq % 32;
    bits::lemma_bits_of_sets(n.enable[word as int], value, b);
    bits::lemma_bits_of_sets(n.pending[word as int], value, b);
}

/// A byte written to the priority of an interrupt or of a system exception counts with its high
/// four bits, and touches no other priority.
pub proof fn law_priority_bytes(n: NvicView, irq: u32, j: int, value: u32)
    requires
        n.wf(),
        irq < 82,
        0 <= j < 82,
        value < 256,
    ensures
        ({
            let m = n.write((0x400 + irq) as u32, 1, value).0;
            &&& m.priority.len() == 82
            &&& m.priority[j] == if j == irq {
                (value / 16) as u8
            } else {
                n.priority[j]
            }
            &&& m.sys_pri == n.sys_pri && m.pending == n.pending && m.enable == n.enable
        }),
        ({
            let t = n.write(0xD23, 1, value).0;
            let p = n.write(0xD22, 1, value).0;
            let c = n.write(0xD1C, 1, value).0;
            &&& t.sys_pri == n.sys_pri.update(11, (value / 16) as u8)
            &&& p.sys_pri == n.sys_pri.update(10, (value / 16) as u8)
            &&& c.sys_pri == n.sys_pri.update(7, (value / 16) as u8)
            &&& t.priority == n.priority && p.priority == n.priority && c.priority == n.priority
        }),
{
    assert(value < 256 ==> ((value as u8) >> 4u32) & 0xF == (value / 16) as u8) by (bit_vector);
}

/// The priorities of the system exceptions stand in three words from 0xD18 on, a byte each:
/// vectors 4 to 6 in the first, 11 in the second, 14 and 15 in the upper half of the third.
pub proof fn law_system_priority_words(n: NvicView)
    ensures
        ({
            let p = |v: int| n.sys_pri[v - 4] & 0xF;
            &&& n.read(0xD18, 4) == Ok::<u32, BusError>(bits::word_of(p(4), p(5), p(6), 0))
            &&& n.read(0xD1C, 4) == Ok::<u32, BusError>(bits::word_of(p(11), 0, 0, 0))
            &&& n.read(0xD20, 4) == Ok::<u32, BusError>(bits::word_of(0, 0, p(14), p(15)))
        }),
{
}

} // verus!
