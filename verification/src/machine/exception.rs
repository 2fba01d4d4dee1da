//! Exception entry and return.
//!
//! On entry eight words go on the stack in use, from low to high addresses: r0, r1, r2, r3,
//! r12, LR, PC, xPSR. LR then says how to return. r4 to r11 are kept beside the stack, except
//! for PendSV, whose handler switches contexts and loads them itself.
use crate::bits;
use crate::cpu::{CONTROL_FPCA, CONTROL_SPSEL, CpuContext, CpuView};
use crate::memory;
use crate::memory::GuestMemory;
use crate::peripheral::nvic;
use crate::peripheral::nvic::{Nvic, NvicView, StopReason};
use vstd::prelude::*;

verus! {

/// Where the vector table stands.
pub const VECTOR_TABLE: u32 = 0x0800_0000;

/// The vector of a supervisor call.
pub const VECTOR_SVC: u32 = 11;

/// The vector of the context switch.
pub const VECTOR_PENDSV: u32 = 14;

/// The vector of the system timer.
pub const VECTOR_SYSTICK: u32 = 15;

/// Return to a handler.
pub const EXC_RETURN_HANDLER: u32 = 0xFFFF_FFF1;

/// Return to a thread on the main stack.
pub const EXC_RETURN_MSP: u32 = 0xFFFF_FFF9;

/// Return to a thread on the process stack.
pub const EXC_RETURN_PSP: u32 = 0xFFFF_FFFD;

/// Why an exception could not be entered or left.
#[derive(Debug, Clone, Copy, PartialEq, Eq, Structural)]
pub enum ExceptionError {
    /// The stack is not in memory.
    NoStack,
    /// The vector table is not in memory.
    NoVector,
    /// A return without an exception to return from.
    NoException,
    /// A return without kept registers.
    NoCallee,
}

/// All that an exception touches.
#[verifier::ext_equal]
pub struct Scene {
    pub cpu: CpuView,
    pub mem: Map<u64, u8>,
    pub nvic: NvicView,
}

/// The bytes of a list of words, each lowest byte first.
pub open spec fn bytes_of_words(ws: Seq<u32>) -> Seq<u8> {
    Seq::new(4 * ws.len(), |i: int| bits::byte_at(ws[i / 4], (i % 4) as u32))
}

/// The word at the start of four bytes.
pub open spec fn word_at(b: Seq<u8>, i: int) -> u32 {
    bits::word_of(b[4 * i], b[4 * i + 1], b[4 * i + 2], b[4 * i + 3])
}

/// The eight words of a frame.
pub open spec fn frame_of(b: Seq<u8>) -> Seq<u32> {
    Seq::new(8, |i: int| word_at(b, i))
}

/// The words that are kept on the stack. Of xPSR only the flags are.
pub open spec fn frame_words(c: CpuView) -> Seq<u32> {
    seq![c.r[0], c.r[1], c.r[2], c.r[3], c.r[12], c.lr, c.pc, c.xpsr & 0xFF00_0000]
}

/// r4 to r11.
pub open spec fn callee_of(c: CpuView) -> Seq<u32> {
    c.r.subrange(4, 12)
}

/// The vector table entry, if it is in memory.
pub open spec fn vector_entry(mem: Map<u64, u8>, vector: u32) -> Option<u32> {
    let at = VECTOR_TABLE + 4 * vector;
    if memory::mapped(mem, at, 4) {
        Some(word_at(memory::bytes_of(mem, at, 4), 0))
    } else {
        None
    }
}

impl Scene {
    /// An exception is running.
    pub open spec fn in_handler(self) -> bool {
        self.nvic.stack.len() > 0
    }

    /// The number of the running exception; 0 in a thread.
    pub open spec fn running(self) -> u32 {
        if self.in_handler() {
            self.nvic.stack.last()
        } else {
            0
        }
    }

    /// Does the interrupted code use the process stack?
    pub open spec fn on_psp(self) -> bool {
        !self.in_handler() && self.cpu.control & CONTROL_SPSEL != 0
    }

    pub open spec fn sp(self) -> u32 {
        if self.on_psp() {
            self.cpu.psp
        } else {
            self.cpu.msp
        }
    }

    /// The value for LR: to where the return goes. Bit 4 is down if the interrupted code has
    /// used the floating point unit.
    pub open spec fn exc_return(self) -> u32 {
        let base = if self.in_handler() {
            EXC_RETURN_HANDLER
        } else if self.cpu.control & CONTROL_SPSEL != 0 {
            EXC_RETURN_PSP
        } else {
            EXC_RETURN_MSP
        };
        if self.cpu.control & CONTROL_FPCA != 0 {
            base & !0x10u32
        } else {
            base
        }
    }

    /// The registers with the frame on the stack, ready to run the handler at `pc`.
    pub open spec fn entered_cpu(self, vector: u32, pc: u32) -> CpuView {
        let sp = (self.sp() - 32) as u32;
        CpuView {
            msp: if self.on_psp() {
                self.cpu.msp
            } else {
                sp
            },
            psp: if self.on_psp() {
                sp
            } else {
                self.cpu.psp
            },
            lr: self.exc_return(),
            ipsr: vector,
            pc,
            ..self.cpu
        }
    }

    pub open spec fn framed_mem(self) -> Map<u64, u8> {
        memory::stored_if_mapped(
            self.mem,
            self.sp() - 32,
            bytes_of_words(frame_words(self.cpu)),
        )
    }

    /// The interrupt controller once an exception runs: it is no longer pending but active.
    pub open spec fn entered_nvic(self, vector: u32) -> NvicView {
        let n = if vector >= 16 {
            self.nvic.clear_pending(vector - 16).set_active(vector - 16)
        } else {
            self.nvic.clear_sys_pending(vector as int)
        };
        let n = NvicView { stack: n.stack.push(vector), ..n };
        if vector == VECTOR_PENDSV {
            n
        } else {
            NvicView { callee: n.callee.push(callee_of(self.cpu)), ..n }
        }
    }

    /// Can the frame be put on the stack?
    pub open spec fn stackable(self) -> bool {
        memory::mapped(self.mem, self.sp() - 32, 32)
    }

    /// An exception is entered.
    pub open spec fn entered(self, vector: u32) -> (Scene, Result<(), ExceptionError>) {
        if !self.stackable() {
            (self, Err(ExceptionError::NoStack))
        } else {
            match vector_entry(self.framed_mem(), vector) {
                None => (
                    Scene {
                        cpu: self.entered_cpu(vector, self.cpu.pc),
                        mem: self.framed_mem(),
                        ..self
                    },
                    Err(ExceptionError::NoVector),
                ),
                Some(h) => (
                    Scene {
                        cpu: self.entered_cpu(vector, h | 1),
                        mem: self.framed_mem(),
                        nvic: self.entered_nvic(vector),
                    },
                    Ok(()),
                ),
            }
        }
    }

    /// A supervisor call is entered. A stack that is not in memory loses the frame, a vector
    /// table that is not there leads to address 0.
    pub open spec fn called(self) -> Scene {
        let h = match vector_entry(self.framed_mem(), VECTOR_SVC) {
            Some(h) => h,
            None => 0,
        };
        Scene {
            cpu: self.entered_cpu(VECTOR_SVC, h | 1),
            mem: self.framed_mem(),
            nvic: NvicView {
                stack: self.nvic.stack.push(VECTOR_SVC),
                callee: self.nvic.callee.push(callee_of(self.cpu)),
                stop: StopReason::SvcEntry,
                ..self.nvic
            },
        }
    }

    /// The stack that a return takes the frame from.
    pub open spec fn return_sp(self, exc_return: u32) -> u32 {
        if exc_return & 0x4 != 0 {
            self.cpu.psp
        } else {
            self.cpu.msp
        }
    }

    /// The interrupt controller once the running exception has ended.
    pub open spec fn left_nvic(self) -> NvicView {
        let v = self.nvic.stack.last();
        let n = NvicView { stack: self.nvic.stack.drop_last(), ..self.nvic };
        if v >= 16 {
            n.clear_active(v - 16)
        } else {
            n
        }
    }

    /// The registers once the frame `f` and the kept registers are back.
    pub open spec fn left_cpu(self, exc_return: u32, f: Seq<u32>, r4: Seq<u32>) -> CpuView {
        let to_thread = exc_return & 0x8 != 0;
        let psp = exc_return & 0x4 != 0;
        let sp = (self.return_sp(exc_return) + 32) as u32;
        CpuView {
            r: seq![f[0], f[1], f[2], f[3]] + r4 + seq![f[4]],
            lr: f[5],
            pc: f[6],
            xpsr: f[7],
            msp: if psp {
                self.cpu.msp
            } else {
                sp
            },
            psp: if psp {
                sp
            } else {
                self.cpu.psp
            },
            control: if to_thread {
                (self.cpu.control & !CONTROL_SPSEL) | if psp {
                    CONTROL_SPSEL
                } else {
                    0
                }
            } else {
                self.cpu.control
            },
            ipsr: if to_thread || self.nvic.stack.len() <= 1 {
                0
            } else {
                self.nvic.stack[self.nvic.stack.len() - 2]
            },
            ..self.cpu
        }
    }

    /// The running exception is left.
    pub open spec fn left(self, exc_return: u32) -> (Scene, Result<(), ExceptionError>) {
        let sp = self.return_sp(exc_return) as int;
        if !memory::mapped(self.mem, sp, 32) {
            (self, Err(ExceptionError::NoStack))
        } else if self.nvic.stack.len() == 0 {
            (self, Err(ExceptionError::NoException))
        } else {
            let n = self.left_nvic();
            let b = memory::bytes_of(self.mem, sp, 32);
            let f = frame_of(b);
            if self.nvic.stack.last() == VECTOR_PENDSV {
                (
                    Scene {
                        cpu: self.left_cpu(exc_return, f, callee_of(self.cpu)),
                        nvic: n,
                        ..self
                    },
                    Ok(()),
                )
            } else if self.nvic.callee.len() == 0 {
                (Scene { nvic: n, ..self }, Err(ExceptionError::NoCallee))
            } else {
                (
                    Scene {
                        cpu: self.left_cpu(exc_return, f, self.nvic.callee.last()),
                        nvic: NvicView { callee: n.callee.drop_last(), ..n },
                        ..self
                    },
                    Ok(()),
                )
            }
        }
    }
}

/// What the return value says, and that CONTROL gets its stack bit back.
proof fn lemma_exc_return(control: u32)
    ensures
        ({
            let (h, m, p) = (EXC_RETURN_HANDLER, EXC_RETURN_MSP, EXC_RETURN_PSP);
            &&& h & 0x8 == 0 && h & 0x4 == 0 && (h & !0x10u32) & 0x8 == 0 && (h & !0x10u32) & 0x4 == 0
            &&& m & 0x8 != 0 && m & 0x4 == 0 && (m & !0x10u32) & 0x8 != 0 && (m & !0x10u32) & 0x4 == 0
            &&& p & 0x8 != 0 && p & 0x4 != 0 && (p & !0x10u32) & 0x8 != 0 && (p & !0x10u32) & 0x4 != 0
        }),
        control & CONTROL_SPSEL != 0 ==> (control & !CONTROL_SPSEL) | CONTROL_SPSEL == control,
        control & CONTROL_SPSEL == 0 ==> (control & !CONTROL_SPSEL) | 0 == control,
        ((control & !CONTROL_SPSEL) | CONTROL_SPSEL) & CONTROL_SPSEL != 0,
        ((control & !CONTROL_SPSEL) | 0) & CONTROL_SPSEL == 0,
        ((control & !CONTROL_SPSEL) | CONTROL_SPSEL) & !CONTROL_SPSEL == control & !CONTROL_SPSEL,
        ((control & !CONTROL_SPSEL) | 0) & !CONTROL_SPSEL == control & !CONTROL_SPSEL,
{
    let (h, m, p) = (0xFFFF_FFF1u32, 0xFFFF_FFF9u32, 0xFFFF_FFFDu32);
    assert(h == 0xFFFF_FFF1u32 && m == 0xFFFF_FFF9u32 && p == 0xFFFF_FFFDu32 ==> (h & 0x8 == 0 && h
        & 0x4 == 0 && (h & !0x10u32) & 0x8 == 0 && (h & !0x10u32) & 0x4 == 0 && m & 0x8 != 0 && m
        & 0x4 == 0 && (m & !0x10u32) & 0x8 != 0 && (m & !0x10u32) & 0x4 == 0 && p & 0x8 != 0 && p
        & 0x4 != 0 && (p & !0x10u32) & 0x8 != 0 && (p & !0x10u32) & 0x4 != 0 && (control & 2 != 0
        ==> (control & !2u32) | 2 == control) && (control & 2 == 0 ==> (control & !2u32) | 0
        == control) && ((control & !2u32) | 2) & 2 != 0 && ((control & !2u32) | 0) & 2 == 0 && ((
    control & !2u32) | 2) & !2u32 == control & !2u32 && ((control & !2u32) | 0) & !2u32 == control
        & !2u32)) by (bit_vector);
}

/// The words of the bytes of words are those words.
proof fn lemma_frame_words(ws: Seq<u32>)
    requires
        ws.len() == 8,
    ensures
        frame_of(bytes_of_words(ws)) == ws,
{
    let b = bytes_of_words(ws);
    assert forall|i: int| 0 <= i < 8 implies #[trigger] frame_of(b)[i] == ws[i] by {
        bits::lemma_word_of_bytes(ws[i]);
        assert((4 * i) / 4 == i && (4 * i) % 4 == 0);
        assert((4 * i + 1) / 4 == i && (4 * i + 1) % 4 == 1);
        assert((4 * i + 2) / 4 == i && (4 * i + 2) % 4 == 2);
        assert((4 * i + 3) / 4 == i && (4 * i + 3) % 4 == 3);
    }
    assert(frame_of(b) =~= ws);
}

/// A return undoes an entry. Whatever the handler did, if it left the stack pointers, the frame
/// and the nesting as it found them, the interrupted code goes on with its own registers and on
/// its own stack, and the exception is over; after a context switch r4 to r11 are those that
/// the handler loaded. A return to a thread gives CONTROL its stack bit back, a return to a
/// handler leaves CONTROL alone.
pub proof fn law_return_undoes_entry(s: Scene, vector: u32, done: Scene)
    requires
        nvic::known_vector(vector),
        s.nvic.wf(),
        s.cpu.r.len() == 13,
        done.cpu.r.len() == 13,
        s.sp() >= 32,
        s.entered(vector).1 is Ok,
        done.nvic.wf(),
        ({
            let e = s.entered(vector).0;
            &&& done.cpu.msp == e.cpu.msp && done.cpu.psp == e.cpu.psp
            &&& done.nvic.stack == e.nvic.stack && done.nvic.callee == e.nvic.callee
            &&& memory::mapped(done.mem, s.sp() - 32, 32)
            &&& memory::bytes_of(done.mem, s.sp() - 32, 32) == memory::bytes_of(
                e.mem,
                s.sp() - 32,
                32,
            )
        }),
    ensures
        ({
            let (l, r) = done.left(s.entered(vector).0.cpu.lr);
            &&& r is Ok
            &&& l.cpu.r.len() == 13
            &&& l.cpu.r.subrange(0, 4) == s.cpu.r.subrange(0, 4)
            &&& l.cpu.r[12] == s.cpu.r[12]
            &&& callee_of(l.cpu) == (if vector == VECTOR_PENDSV {
                callee_of(done.cpu)
            } else {
                callee_of(s.cpu)
            })
            &&& l.cpu.lr == s.cpu.lr && l.cpu.pc == s.cpu.pc
            &&& l.cpu.xpsr == s.cpu.xpsr & 0xFF00_0000
            &&& l.cpu.msp == s.cpu.msp && l.cpu.psp == s.cpu.psp
            &&& l.cpu.ipsr == s.running()
            &&& s.in_handler() ==> l.cpu.control == done.cpu.control
            &&& !s.in_handler() ==> {
                &&& (l.cpu.control & CONTROL_SPSEL != 0 <==> s.cpu.control & CONTROL_SPSEL != 0)
                &&& l.cpu.control & !CONTROL_SPSEL == done.cpu.control & !CONTROL_SPSEL
            }
            &&& done.cpu.control == s.cpu.control ==> l.cpu.control == s.cpu.control
            &&& l.nvic.stack == s.nvic.stack && l.nvic.callee == s.nvic.callee
            &&& vector >= 16 ==> !l.nvic.is_active(vector - 16)
        }),
{
    let lr = s.exc_return();
    let r4 = if vector == VECTOR_PENDSV {
        callee_of(done.cpu)
    } else {
        callee_of(s.cpu)
    };
    lemma_entry(s, vector);
    lemma_return_value(s);
    lemma_leave(s, vector, done, lr, r4);
    lemma_registers_back(s, done, lr, r4);
    if vector >= 16 {
        let irq = vector - 16;
        bits::lemma_clear_bit(done.nvic.active[irq / 32], irq % 32, irq % 32);
    }
}

/// What stands where after an entry.
proof fn lemma_entry(s: Scene, vector: u32)
    requires
        s.sp() >= 32,
        s.entered(vector).1 is Ok,
    ensures
        ({
            let e = s.entered(vector).0;
            let sp = (s.sp() - 32) as u32;
            &&& e.cpu.lr == s.exc_return()
            &&& e.cpu.control == s.cpu.control
            &&& e.cpu.msp == if s.on_psp() {
                s.cpu.msp
            } else {
                sp
            }
            &&& e.cpu.psp == if s.on_psp() {
                sp
            } else {
                s.cpu.psp
            }
            &&& e.nvic.stack == s.nvic.stack.push(vector)
            &&& e.nvic.callee == if vector == VECTOR_PENDSV {
                s.nvic.callee
            } else {
                s.nvic.callee.push(callee_of(s.cpu))
            }
            &&& frame_of(memory::bytes_of(e.mem, sp as int, 32)) == frame_words(s.cpu)
        }),
{
    let ws = frame_words(s.cpu);
    lemma_frame_words(ws);
    memory::law_load_what_was_stored(s.mem, s.sp() - 32, bytes_of_words(ws));
}

/// What a return gives back.
proof fn lemma_leave(s: Scene, vector: u32, done: Scene, lr: u32, r4: Seq<u32>)
    requires
        memory::mapped(done.mem, done.return_sp(lr) as int, 32),
        frame_of(memory::bytes_of(done.mem, done.return_sp(lr) as int, 32)) == frame_words(s.cpu),
        done.nvic.stack == s.nvic.stack.push(vector),
        vector == VECTOR_PENDSV ==> r4 == callee_of(done.cpu) && done.nvic.callee == s.nvic.callee,
        vector != VECTOR_PENDSV ==> done.nvic.callee == s.nvic.callee.push(r4),
    ensures
        ({
            let (l, r) = done.left(lr);
            &&& r is Ok
            &&& l.cpu == done.left_cpu(lr, frame_words(s.cpu), r4)
            &&& l.nvic.stack == s.nvic.stack
            &&& l.nvic.callee == s.nvic.callee
            &&& done.nvic.stack.drop_last() == s.nvic.stack
        }),
{
    assert(done.nvic.stack.drop_last() =~= s.nvic.stack);
    assert(done.nvic.stack.last() == vector);
    if vector != VECTOR_PENDSV {
        assert(done.nvic.callee.drop_last() =~= s.nvic.callee);
        assert(done.nvic.callee.last() == r4);
    }
}

/// The return value names the mode and the stack of the interrupted code.
proof fn lemma_return_value(s: Scene)
    ensures
        s.exc_return() & 0x8 != 0 <==> !s.in_handler(),
        s.exc_return() & 0x4 != 0 <==> s.on_psp(),
{
    lemma_exc_return(s.cpu.control);
}

proof fn lemma_registers_back(s: Scene, done: Scene, lr: u32, r4: Seq<u32>)
    requires
        s.cpu.r.len() == 13,
        r4.len() == 8,
        s.sp() >= 32,
        lr & 0x8 != 0 <==> !s.in_handler(),
        lr & 0x4 != 0 <==> s.on_psp(),
        done.cpu.msp == (if s.on_psp() {
            s.cpu.msp
        } else {
            (s.sp() - 32) as u32
        }),
        done.cpu.psp == (if s.on_psp() {
            (s.sp() - 32) as u32
        } else {
            s.cpu.psp
        }),
        done.nvic.stack.len() == s.nvic.stack.len() + 1,
        done.nvic.stack.drop_last() == s.nvic.stack,
    ensures
        ({
            let c = done.left_cpu(lr, frame_words(s.cpu), r4);
            &&& c.r.len() == 13
            &&& c.r.subrange(0, 4) == s.cpu.r.subrange(0, 4)
            &&& c.r[12] == s.cpu.r[12]
            &&& callee_of(c) == r4
            &&& c.lr == s.cpu.lr && c.pc == s.cpu.pc
            &&& c.xpsr == s.cpu.xpsr & 0xFF00_0000
            &&& c.msp == s.cpu.msp && c.psp == s.cpu.psp
            &&& c.ipsr == s.running()
            &&& s.in_handler() ==> c.control == done.cpu.control
            &&& !s.in_handler() ==> {
                &&& (c.control & CONTROL_SPSEL != 0 <==> s.cpu.control & CONTROL_SPSEL != 0)
                &&& c.control & !CONTROL_SPSEL == done.cpu.control & !CONTROL_SPSEL
            }
            &&& done.cpu.control == s.cpu.control ==> c.control == s.cpu.control
        }),
{
    lemma_exc_return(done.cpu.control);
    let c = done.left_cpu(lr, frame_words(s.cpu), r4);
    assert(c.r.subrange(0, 4) =~= s.cpu.r.subrange(0, 4));
    assert(callee_of(c) =~= r4);
    if s.in_handler() {
        assert(done.nvic.stack.drop_last().last() == s.nvic.stack.last());
    }
}

fn frame_bytes(cpu: &CpuContext) -> (r: Vec<u8>)
    ensures
        r@ == bytes_of_words(frame_words(cpu@)),
        r@.len() == 32,
{
    let words: [u32; 8] = [
        cpu.r[0],
        cpu.r[1],
        cpu.r[2],
        cpu.r[3],
        cpu.r[12],
        cpu.lr,
        cpu.pc,
        cpu.xpsr & 0xFF00_0000,
    ];
    assert(words@ =~= frame_words(cpu@));
    let mut out: Vec<u8> = Vec::new();
    let mut i: usize = 0;
    while i < 32
        invariant
            i <= 32,
            out@.len() == i,
            words@ == frame_words(cpu@),
            forall|k: int|
                0 <= k < i ==> #[trigger] out@[k] == bits::byte_at(
                    frame_words(cpu@)[k / 4],
                    (k % 4) as u32,
                ),
        decreases 32 - i,
    {
        out.push(bits::byte_of(words[i / 4], (i % 4) as u32));
        i = i + 1;
    }
    assert(out@ =~= bytes_of_words(frame_words(cpu@)));
    out
}

fn callee_regs(cpu: &CpuContext) -> (r: [u32; 8])
    ensures
        r@ == callee_of(cpu@),
{
    let r = [
        cpu.r[4],
        cpu.r[5],
        cpu.r[6],
        cpu.r[7],
        cpu.r[8],
        cpu.r[9],
        cpu.r[10],
        cpu.r[11],
    ];
    assert(r@ =~= callee_of(cpu@));
    r
}

fn read_vector<M: GuestMemory>(mem: &M, vector: u32) -> (r: Option<u32>)
    ensures
        r == vector_entry(mem@, vector),
{
    match mem.mem_read(VECTOR_TABLE as u64 + 4 * vector as u64, 4) {
        Some(b) => Some(bits::le_word(b[0], b[1], b[2], b[3])),
        None => None,
    }
}

/// Puts the frame on the stack in use, and sets the stack pointer, LR and IPSR. Says whether
/// the stack is in memory.
fn stack_frame<M: GuestMemory>(cpu: &mut CpuContext, mem: &mut M, nvic: &Nvic, vector: u32) -> (r:
    bool)
    requires
        (Scene { cpu: old(cpu)@, mem: old(mem)@, nvic: nvic@ }).sp() >= 32,
    ensures
        ({
            let s = Scene { cpu: old(cpu)@, mem: old(mem)@, nvic: nvic@ };
            &&& r == s.stackable()
            &&& final(mem)@ == s.framed_mem()
            &&& final(cpu)@ == s.entered_cpu(vector, s.cpu.pc)
        }),
{
    let ghost s = Scene { cpu: cpu@, mem: mem@, nvic: nvic@ };
    let in_handler = nvic.in_handler();
    let spsel = cpu.control & CONTROL_SPSEL != 0;
    let on_psp = !in_handler && spsel;
    let base = if in_handler {
        EXC_RETURN_HANDLER
    } else if spsel {
        EXC_RETURN_PSP
    } else {
        EXC_RETURN_MSP
    };
    let exc_return = if cpu.control & CONTROL_FPCA != 0 {
        base & !0x10u32
    } else {
        base
    };
    let sp: u32 = if on_psp {
        cpu.psp - 32
    } else {
        cpu.msp - 32
    };
    let frame = frame_bytes(cpu);
    let ok = mem.mem_write(sp as u64, &frame);
    if on_psp {
        cpu.psp = sp;
    } else {
        cpu.msp = sp;
    }
    cpu.lr = exc_return;
    cpu.ipsr = vector;
    assert(cpu@ =~= s.entered_cpu(vector, s.cpu.pc));
    ok
}

/// Enters the exception `vector`: saves the context on the stack in use, and goes to the
/// handler.
pub fn enter_exception<M: GuestMemory>(
    cpu: &mut CpuContext,
    mem: &mut M,
    nvic: &mut Nvic,
    vector: u32,
) -> (r: Result<(), ExceptionError>)
    requires
        nvic::known_vector(vector),
        (Scene { cpu: old(cpu)@, mem: old(mem)@, nvic: old(nvic)@ }).sp() >= 32,
    ensures
        (Scene { cpu: final(cpu)@, mem: final(mem)@, nvic: final(nvic)@ }, r) == (Scene {
            cpu: old(cpu)@,
            mem: old(mem)@,
            nvic: old(nvic)@,
        }).entered(vector),
{
    let ghost s = Scene { cpu: cpu@, mem: mem@, nvic: nvic@ };
    let mut inside = *cpu;
    let callee = callee_regs(cpu);
    let ok = stack_frame(&mut inside, mem, nvic, vector);
    if !ok {
        assert(Scene { cpu: cpu@, mem: mem@, nvic: nvic@ } =~= s);
        return Err(ExceptionError::NoStack);
    }
    *cpu = inside;
    let handler = match read_vector(mem, vector) {
        Some(h) => h,
        None => {
            return Err(ExceptionError::NoVector);
        },
    };
    cpu.pc = handler | 1;
    if vector >= 16 {
        nvic.clear_pending(vector - 16);
        nvic.set_active(vector - 16);
    } else {
        nvic.clear_sys_pending(vector);
    }
    nvic.push_exception(vector);
    if vector != VECTOR_PENDSV {
        nvic.push_callee(callee);
    }
    assert(cpu@ =~= s.entered_cpu(vector, handler | 1));
    assert(nvic@ =~= s.entered_nvic(vector));
    Ok(())
}

/// Enters the supervisor call: as other exceptions, but nothing was pending.
pub fn svc_entry<M: GuestMemory>(cpu: &mut CpuContext, mem: &mut M, nvic: &mut Nvic)
    requires
        (Scene { cpu: old(cpu)@, mem: old(mem)@, nvic: old(nvic)@ }).sp() >= 32,
    ensures
        (Scene { cpu: final(cpu)@, mem: final(mem)@, nvic: final(nvic)@ }) == (Scene {
            cpu: old(cpu)@,
            mem: old(mem)@,
            nvic: old(nvic)@,
        }).called(),
{
    let ghost s = Scene { cpu: cpu@, mem: mem@, nvic: nvic@ };
    let callee = callee_regs(cpu);
    let _ = stack_frame(cpu, mem, nvic, VECTOR_SVC);
    let handler = match read_vector(mem, VECTOR_SVC) {
        Some(h) => h,
        None => 0,
    };
    cpu.pc = handler | 1;
    nvic.push_exception(VECTOR_SVC);
    nvic.push_callee(callee);
    nvic.set_stop_reason(StopReason::SvcEntry);
    assert(callee@ == callee_of(s.cpu));
    assert(cpu@ =~= s.entered_cpu(VECTOR_SVC, handler | 1));
    assert(nvic@ =~= (NvicView {
        stack: s.nvic.stack.push(VECTOR_SVC),
        callee: s.nvic.callee.push(callee@),
        stop: StopReason::SvcEntry,
        ..s.nvic
    }));
}

fn restore(cpu: &mut CpuContext, exc_return: u32, b: &Vec<u8>, r4: [u32; 8], outer: u32)
    requires
        b@.len() == 32,
        (if exc_return & 0x4 != 0 {
            old(cpu)@.psp
        } else {
            old(cpu)@.msp
        }) + 32 <= u32::MAX,
    ensures
        forall|s: Scene|
            s.cpu == old(cpu)@ && outer == (if s.nvic.stack.len() <= 1 {
                0
            } else {
                s.nvic.stack[s.nvic.stack.len() - 2]
            }) ==> final(cpu)@ == #[trigger] s.left_cpu(
                exc_return,
                frame_of(b@),
                r4@,
            ),
{
    let ghost c0 = cpu@;
    let ghost f = frame_of(b@);
    let to_thread = exc_return & 0x8 != 0;
    let psp = exc_return & 0x4 != 0;
    cpu.r = [
        bits::le_word(b[0], b[1], b[2], b[3]),
        bits::le_word(b[4], b[5], b[6], b[7]),
        bits::le_word(b[8], b[9], b[10], b[11]),
        bits::le_word(b[12], b[13], b[14], b[15]),
        r4[0],
        r4[1],
        r4[2],
        r4[3],
        r4[4],
        r4[5],
        r4[6],
        r4[7],
        bits::le_word(b[16], b[17], b[18], b[19]),
    ];
    cpu.lr = bits::le_word(b[20], b[21], b[22], b[23]);
    cpu.pc = bits::le_word(b[24], b[25], b[26], b[27]);
    cpu.xpsr = bits::le_word(b[28], b[29], b[30], b[31]);
    if psp {
        cpu.psp = cpu.psp + 32;
    } else {
        cpu.msp = cpu.msp + 32;
    }
    if to_thread {
        cpu.control = (cpu.control & !CONTROL_SPSEL) | if psp {
            CONTROL_SPSEL
        } else {
            0
        };
        cpu.ipsr = 0;
    } else {
        cpu.ipsr = outer;
    }
    proof {
        assert(cpu.r@ =~= seq![f[0], f[1], f[2], f[3]] + r4@ + seq![f[4]]);
    }
}

/// Leaves the running exception: takes the context back from the stack that `exc_return`
/// names.
pub fn exception_return<M: GuestMemory>(
    cpu: &mut CpuContext,
    mem: &M,
    nvic: &mut Nvic,
    exc_return: u32,
) -> (r: Result<(), ExceptionError>)
    requires
        (Scene { cpu: old(cpu)@, mem: mem@, nvic: old(nvic)@ }).return_sp(exc_return) + 32
            <= u32::MAX,
    ensures
        (Scene { cpu: final(cpu)@, mem: mem@, nvic: final(nvic)@ }, r) == (Scene {
            cpu: old(cpu)@,
            mem: mem@,
            nvic: old(nvic)@,
        }).left(exc_return),
{
    let ghost s = Scene { cpu: cpu@, mem: mem@, nvic: nvic@ };
    let sp = if exc_return & 0x4 != 0 {
        cpu.psp
    } else {
        cpu.msp
    };
    let b = match mem.mem_read(sp as u64, 32) {
        Some(b) => b,
        None => {
            return Err(ExceptionError::NoStack);
        },
    };
    nvic.shape();
    let vector = match nvic.pop_exception() {
        Some(v) => v,
        None => {
            return Err(ExceptionError::NoException);
        },
    };
    assert(nvic::known_vector(s.nvic.stack[s.nvic.stack.len() - 1]));
    if vector >= 16 {
        nvic.clear_active(vector - 16);
    }
    assert(nvic@ =~= s.left_nvic());
    let r4 = if vector != VECTOR_PENDSV {
        match nvic.pop_callee() {
            Some(r4) => r4,
            None => {
                return Err(ExceptionError::NoCallee);
            },
        }
    } else {
        callee_regs(cpu)
    };
    let outer = nvic.current_exception();
    restore(cpu, exc_return, &b, r4, outer);
    proof {
        let f = frame_of(b@);
        assert(outer == (if s.nvic.stack.len() <= 1 {
            0
        } else {
            s.nvic.stack[s.nvic.stack.len() - 2]
        }));
        assert(cpu@ == s.left_cpu(exc_return, f, r4@));
    }
    Ok(())
}

/// An exception that is entered is no longer pending, and an interrupt is active then; nothing
/// else that is pending, active, enabled or ranked changes.
pub proof fn law_entry_takes_the_request(s: Scene, vector: u32, v: int, irq: int)
    requires
        nvic::known_vector(vector),
        s.nvic.wf(),
        s.entered(vector).1 is Ok,
        0 <= v < 32,
        0 <= irq < 96,
    ensures
        ({
            let n = s.entered(vector).0.nvic;
            &&& n.wf()
            &&& bits::has_bit(n.sys_pending, v) <==> bits::has_bit(s.nvic.sys_pending, v) && (v
                != vector || vector >= 16)
            &&& bits::has_bit(n.pending[irq / 32], irq % 32) <==> bits::has_bit(
                s.nvic.pending[irq / 32],
                irq % 32,
            ) && irq + 16 != vector
            &&& bits::has_bit(n.active[irq / 32], irq % 32) <==> bits::has_bit(
                s.nvic.active[irq / 32],
                irq % 32,
            ) || irq + 16 == vector
            &&& n.enable == s.nvic.enable && n.priority == s.nvic.priority
            &&& n.sys_pri == s.nvic.sys_pri && n.group == s.nvic.group
            &&& n.stack == s.nvic.stack.push(vector)
        }),
{
    if vector < 16 {
        bits::lemma_clear_bit(s.nvic.sys_pending, vector as int, v);
    } else {
        let i = vector - 16;
        bits::lemma_clear_bit(s.nvic.pending[i / 32], i % 32, irq % 32);
        bits::lemma_set_bit(s.nvic.active[i / 32], i % 32, irq % 32);
    }
}

/// An exception is served once: after the return, with nothing newly pending, it is not the one
/// that is taken next.
pub proof fn law_exception_is_served_once(
    s: Scene,
    vector: u32,
    done: Scene,
    exc_return: u32,
    primask: bool,
    basepri: u8,
    next: Option<u32>,
)
    requires
        nvic::known_vector(vector),
        s.nvic.wf(),
        s.entered(vector).1 is Ok,
        done.nvic.wf(),
        done.nvic.stack == s.entered(vector).0.nvic.stack,
        done.nvic.pending == s.entered(vector).0.nvic.pending,
        done.nvic.sys_pending == s.entered(vector).0.nvic.sys_pending,
        done.left(exc_return).1 is Ok,
        done.left(exc_return).0.nvic.selects_vector(primask, basepri, next),
    ensures
        next != Some(vector),
{
    let l = done.left(exc_return).0.nvic;
    if next == Some(vector) {
        let i = if vector < 16 {
            0
        } else {
            vector - 16
        };
        law_entry_takes_the_request(s, vector, vector as int % 32, i);
        assert(l.vector_candidate(basepri, vector as int));
        assert(l.pending == done.nvic.pending && l.sys_pending == done.nvic.sys_pending);
    }
}

/// Eight words go below the stack pointer in use, in this order: r0 to r3, r12, LR, PC, and the
/// flags. A thread with bit 1 of CONTROL set uses the process stack, all other code the main one.
/// The rest of memory stays as it is.
pub proof fn law_entry_saves_the_context(s: Scene, vector: u32, a: u64)
    requires
        s.cpu.r.len() == 13,
        s.nvic.wf(),
        s.entered(vector).1 is Ok,
        (if s.nvic.stack.len() == 0 && s.cpu.control & 2 != 0 {
            s.cpu.psp
        } else {
            s.cpu.msp
        }) >= 32,
    ensures
        ({
            let e = s.entered(vector).0;
            let psp = s.nvic.stack.len() == 0 && s.cpu.control & 2 != 0;
            let sp = if psp {
                s.cpu.psp - 32
            } else {
                s.cpu.msp - 32
            };
            let b = memory::bytes_of(e.mem, sp, 32);
            &&& e.cpu.msp == if psp {
                s.cpu.msp as int
            } else {
                sp
            }
            &&& e.cpu.psp == if psp {
                sp
            } else {
                s.cpu.psp as int
            }
            &&& bits::word_of(b[0], b[1], b[2], b[3]) == s.cpu.r[0]
            &&& bits::word_of(b[4], b[5], b[6], b[7]) == s.cpu.r[1]
            &&& bits::word_of(b[8], b[9], b[10], b[11]) == s.cpu.r[2]
            &&& bits::word_of(b[12], b[13], b[14], b[15]) == s.cpu.r[3]
            &&& bits::word_of(b[16], b[17], b[18], b[19]) == s.cpu.r[12]
            &&& bits::word_of(b[20], b[21], b[22], b[23]) == s.cpu.lr
            &&& bits::word_of(b[24], b[25], b[26], b[27]) == s.cpu.pc
            &&& bits::word_of(b[28], b[29], b[30], b[31]) == s.cpu.xpsr & 0xFF00_0000
            &&& e.mem.dom() == s.mem.dom()
            &&& !(sp <= a < sp + 32) ==> e.mem[a] == s.mem[a]
        }),
{
    let ws = frame_words(s.cpu);
    let b = bytes_of_words(ws);
    lemma_entry(s, vector);
    memory::law_store_then_load(s.mem, s.sp() - 32, b, a);
    let f = frame_of(memory::bytes_of(s.entered(vector).0.mem, s.sp() - 32, 32));
    assert(f[0] == ws[0] && f[1] == ws[1] && f[2] == ws[2] && f[3] == ws[3] && f[4] == ws[4] && f[5]
        == ws[5] && f[6] == ws[6] && f[7] == ws[7]);
}

/// The handler starts at the address in the vector table, in Thumb state, with its own number,
/// with the registers of the interrupted code, and with the value in LR that names the mode and
/// the stack to return to; bit 4 is down if the floating point unit was in use.
pub proof fn law_entry_goes_to_the_handler(s: Scene, vector: u32)
    requires
        s.entered(vector).1 is Ok,
    ensures
        ({
            let e = s.entered(vector).0;
            let t = memory::bytes_of(e.mem, 0x0800_0000 + 4 * vector, 4);
            let lr: u32 = if s.nvic.stack.len() > 0 {
                0xFFFF_FFF1
            } else if s.cpu.control & 2 != 0 {
                0xFFFF_FFFD
            } else {
                0xFFFF_FFF9
            };
            &&& e.cpu.pc == bits::word_of(t[0], t[1], t[2], t[3]) | 1
            &&& e.cpu.ipsr == vector
            &&& e.cpu.lr == if s.cpu.control & 4 != 0 {
                lr & !0x10u32
            } else {
                lr
            }
            &&& e.cpu.r == s.cpu.r && e.cpu.control == s.cpu.control && e.cpu.xpsr == s.cpu.xpsr
            &&& e.cpu.primask == s.cpu.primask && e.cpu.basepri == s.cpu.basepri
        }),
{
}

/// An exception that cannot be entered because the stack is not in memory changes nothing, and
/// none is entered without its entry in the vector table: it stays pending.
pub proof fn law_failed_entry(s: Scene, vector: u32)
    ensures
        s.entered(vector).1 is Ok <==> memory::mapped(s.mem, s.sp() - 32, 32) && memory::mapped(
            s.framed_mem(),
            0x0800_0000 + 4 * vector,
            4,
        ),
        !memory::mapped(s.mem, s.sp() - 32, 32) ==> s.entered(vector) == (
            s,
            Err::<(), ExceptionError>(ExceptionError::NoStack),
        ),
        s.entered(vector).1 is Err ==> s.entered(vector).0.nvic == s.nvic,
{
}

/// A supervisor call is entered like an exception of vector 11, but takes no pending bit away,
/// and stops the engine.
pub proof fn law_call_enters_vector_11(s: Scene)
    requires
        s.entered(11).1 is Ok,
    ensures
        ({
            let (c, e) = (s.called(), s.entered(11).0);
            &&& c.cpu == e.cpu && c.mem == e.mem
            &&& c.nvic.stack == s.nvic.stack.push(11u32) && c.nvic.stack == e.nvic.stack
            &&& c.nvic.callee == e.nvic.callee
            &&& c.nvic.stop == StopReason::SvcEntry
            &&& c.nvic.pending == s.nvic.pending && c.nvic.sys_pending == s.nvic.sys_pending
            &&& c.nvic.active == s.nvic.active && c.nvic.enable == s.nvic.enable
        }),
{
}

/// A return takes eight words from the stack that bit 2 of the return value names, in the order
/// in which an entry puts them there, and r4 to r11 from beside the stack, except after PendSV.
/// The return to a thread (bit 3) ends all exceptions for the processor, another one goes back
/// to the exception that was interrupted. Memory and what is pending stay as they are, and of
/// what is active only the exception that ends.
pub proof fn law_return_takes_the_frame(s: Scene, exc_return: u32, irq: int)
    requires
        s.left(exc_return).1 is Ok,
        s.nvic.wf(),
        s.cpu.r.len() == 13,
        s.nvic.callee.len() > 0 ==> s.nvic.callee.last().len() == 8,
        0 <= irq < 96,
        (if exc_return & 4 != 0 {
            s.cpu.psp
        } else {
            s.cpu.msp
        }) + 32 <= u32::MAX,
    ensures
        ({
            let l = s.left(exc_return).0;
            let psp = exc_return & 4 != 0;
            let sp = if psp {
                s.cpu.psp as int
            } else {
                s.cpu.msp as int
            };
            let b = memory::bytes_of(s.mem, sp, 32);
            let depth = s.nvic.stack.len();
            let v = s.nvic.stack[depth - 1];
            &&& l.mem == s.mem
            &&& l.cpu.r.len() == 13
            &&& l.cpu.r[0] == bits::word_of(b[0], b[1], b[2], b[3])
            &&& l.cpu.r[1] == bits::word_of(b[4], b[5], b[6], b[7])
            &&& l.cpu.r[2] == bits::word_of(b[8], b[9], b[10], b[11])
            &&& l.cpu.r[3] == bits::word_of(b[12], b[13], b[14], b[15])
            &&& l.cpu.r[12] == bits::word_of(b[16], b[17], b[18], b[19])
            &&& l.cpu.lr == bits::word_of(b[20], b[21], b[22], b[23])
            &&& l.cpu.pc == bits::word_of(b[24], b[25], b[26], b[27])
            &&& l.cpu.xpsr == bits::word_of(b[28], b[29], b[30], b[31])
            &&& l.cpu.r.subrange(4, 12) == if v == 14 {
                s.cpu.r.subrange(4, 12)
            } else {
                s.nvic.callee.last()
            }
            &&& l.cpu.msp == if psp {
                s.cpu.msp as int
            } else {
                sp + 32
            }
            &&& l.cpu.psp == if psp {
                sp + 32
            } else {
                s.cpu.psp as int
            }
            &&& exc_return & 8 != 0 ==> l.cpu.ipsr == 0
            &&& exc_return & 8 == 0 ==> l.cpu.ipsr == if depth > 1 {
                s.nvic.stack[depth - 2]
            } else {
                0
            }
            &&& l.nvic.stack == s.nvic.stack.drop_last()
            &&& v != 14 ==> l.nvic.callee == s.nvic.callee.drop_last()
            &&& v == 14 ==> l.nvic.callee == s.nvic.callee
            &&& l.nvic.pending == s.nvic.pending && l.nvic.sys_pending == s.nvic.sys_pending
            &&& bits::has_bit(l.nvic.active[irq / 32], irq % 32) <==> bits::has_bit(
                s.nvic.active[irq / 32],
                irq % 32,
            ) && irq + 16 != v
        }),
{
    let l = s.left(exc_return).0;
    let v = s.nvic.stack.last();
    assert(nvic::known_vector(s.nvic.stack[s.nvic.stack.len() - 1]));
    if v >= 16 {
        let i = v - 16;
        bits::lemma_clear_bit(s.nvic.active[i / 32], i % 32, irq % 32);
    }
    let r4 = if v == 14 {
        callee_of(s.cpu)
    } else {
        s.nvic.callee.last()
    };
    assert(l.cpu.r.subrange(4, 12) =~= r4);
}

} // verus!
