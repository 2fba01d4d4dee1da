//! Debugger breakpoints in the code of the firmware.
//!
//! A breakpoint puts a trap instruction in place of the two bytes at its address, and keeps
//! those for when it is cleared. Setting it again leaves what it keeps alone.
use crate::memory;
use crate::memory::GuestMemory;
use std::collections::{HashMap, HashSet};
use vstd::prelude::*;

verus! {

broadcast use vstd::std_specs::hash::group_hash_axioms;

/// Both bytes of the trap instruction.
pub const TRAP: u8 = 0xBE;

/// The breakpoints.
pub struct Breakpoints {
    pub breaks: HashSet<u32>,
    pub saved: HashMap<u32, (u8, u8)>,
    pub hit: bool,
}

/// The state of the breakpoints.
#[verifier::ext_equal]
pub struct BreaksView {
    /// Where the breakpoints are.
    pub breaks: Set<u32>,
    /// The bytes that the traps replace.
    pub saved: Map<u32, (u8, u8)>,
    /// Has one been hit since the flag was taken?
    pub hit: bool,
}

impl View for Breakpoints {
    type V = BreaksView;

    open spec fn view(&self) -> BreaksView {
        BreaksView { breaks: self.breaks@, saved: self.saved@, hit: self.hit }
    }
}

/// Instructions start at even addresses.
pub open spec fn even(addr: u32) -> u32 {
    addr & !1u32
}

impl BreaksView {
    /// A breakpoint is set. Where there is no memory it is only listed.
    pub open spec fn set(self, mem: Map<u64, u8>, addr: u32) -> (BreaksView, Map<u64, u8>, bool) {
        let a = even(addr);
        let listed = BreaksView { breaks: self.breaks.insert(a), ..self };
        if memory::mapped(mem, a as int, 2) {
            let b = memory::bytes_of(mem, a as int, 2);
            (
                BreaksView {
                    saved: if self.saved.dom().contains(a) {
                        self.saved
                    } else {
                        self.saved.insert(a, (b[0], b[1]))
                    },
                    ..listed
                },
                memory::stored(mem, a as int, seq![TRAP, TRAP]),
                true,
            )
        } else {
            (listed, mem, false)
        }
    }

    /// A breakpoint is cleared, and the bytes that it kept come back.
    pub open spec fn cleared(self, mem: Map<u64, u8>, addr: u32) -> (BreaksView, Map<u64, u8>) {
        let a = even(addr);
        (
            BreaksView { breaks: self.breaks.remove(a), saved: self.saved.remove(a), ..self },
            if self.saved.dom().contains(a) {
                memory::stored_if_mapped(
                    mem,
                    a as int,
                    seq![self.saved[a].0, self.saved[a].1],
                )
            } else {
                mem
            },
        )
    }
}

impl Breakpoints {
    pub fn new() -> (r: Self)
        ensures
            r@ == (BreaksView { breaks: Set::empty(), saved: Map::empty(), hit: false }),
    {
        let r = Breakpoints { breaks: HashSet::new(), saved: HashMap::new(), hit: false };
        assert(r@ =~= BreaksView { breaks: Set::empty(), saved: Map::empty(), hit: false });
        r
    }

    /// Sets a breakpoint. Says whether there is memory to hold it.
    pub fn gdb_set_break<M: GuestMemory>(&mut self, mem: &mut M, addr: u32) -> (r: bool)
        ensures
            (final(self)@, final(mem)@, r) == old(self)@.set(old(mem)@, addr),
    {
        let a = addr & !1u32;
        self.breaks.insert(a);
        let b = match mem.mem_read(a as u64, 2) {
            Some(b) => b,
            None => {
                return false;
            },
        };
        if !self.saved.contains_key(&a) {
            self.saved.insert(a, (b[0], b[1]));
        }
        let mut trap: Vec<u8> = Vec::new();
        trap.push(TRAP);
        trap.push(TRAP);
        assert(trap@ =~= seq![TRAP, TRAP]);
        mem.mem_write(a as u64, &trap)
    }

    /// Clears a breakpoint.
    pub fn gdb_clear_break<M: GuestMemory>(&mut self, mem: &mut M, addr: u32)
        ensures
            (final(self)@, final(mem)@) == old(self)@.cleared(old(mem)@, addr),
    {
        let a = addr & !1u32;
        self.breaks.remove(&a);
        if let Some((x, y)) = self.saved.remove(&a) {
            let mut back: Vec<u8> = Vec::new();
            back.push(x);
            back.push(y);
            assert(back@ =~= seq![x, y]);
            let _ = mem.mem_write(a as u64, &back);
        }
        assert(self@ =~= old(self)@.cleared(old(mem)@, addr).0);
    }

    /// Is there a breakpoint at the instruction?
    pub fn stops_at(&self, pc: u32) -> (r: bool)
        ensures
            r == self@.breaks.contains(even(pc)),
    {
        self.breaks.contains(&(pc & !1u32))
    }

    /// Has a breakpoint been hit?
    pub fn gdb_break_hit(&self) -> (r: bool)
        ensures
            r == self@.hit,
    {
        self.hit
    }

    /// Has a breakpoint been hit? The answer is given once.
    pub fn gdb_break_hit_take(&mut self) -> (r: bool)
        ensures
            r == old(self)@.hit,
            final(self)@ == (BreaksView { hit: false, ..old(self)@ }),
    {
        let r = self.hit;
        self.hit = false;
        r
    }

    /// How many breakpoints there are.
    pub fn gdb_breaks_len(&self) -> (r: usize)
        ensures
            r == self@.breaks.len(),
    {
        self.breaks.len()
    }
}

impl BreaksView {
    /// A breakpoint is set `n` times.
    pub open spec fn set_times(self, mem: Map<u64, u8>, addr: u32, n: nat) -> (
        BreaksView,
        Map<u64, u8>,
    )
        decreases n,
    {
        if n == 0 {
            (self, mem)
        } else {
            let (b, m) = self.set_times(mem, addr, (n - 1) as nat);
            (b.set(m, addr).0, b.set(m, addr).1)
        }
    }

    /// Traps are at even addresses, in memory that is there.
    pub open spec fn wf(self, mem: Map<u64, u8>) -> bool {
        forall|a: u32| #[trigger]
            self.saved.dom().contains(a) ==> a % 2 == 0 && memory::mapped(mem, a as int, 2)
    }

    /// The byte of the firmware at an address: what a trap replaced there, or what is there.
    pub open spec fn code_at(self, mem: Map<u64, u8>, x: u64) -> u8 {
        let a = (x - x % 2) as u32;
        if x <= u32::MAX && self.saved.dom().contains(a) {
            if x % 2 == 0 {
                self.saved[a].0
            } else {
                self.saved[a].1
            }
        } else {
            mem[x]
        }
    }
}

proof fn lemma_even(addr: u32)
    ensures
        even(addr) % 2 == 0,
        even(addr) <= addr,
        even(addr) == addr - addr % 2,
{
    assert((addr & !1u32) % 2 == 0 && (addr & !1u32) <= addr && addr & !1u32 == addr - addr % 2)
        by (bit_vector);
}

/// Two values written over the same range: the second stays.
proof fn lemma_stored_twice(m: Map<u64, u8>, a: int, first: Seq<u8>, second: Seq<u8>)
    requires
        0 <= a,
        a + first.len() <= u64::MAX,
        memory::mapped(m, a, first.len() as int),
        first.len() == second.len(),
    ensures
        memory::stored(memory::stored(m, a, first), a, second) == memory::stored(m, a, second),
        memory::mapped(memory::stored(m, a, first), a, first.len() as int),
{
    let m1 = memory::stored(m, a, first);
    memory::law_store_then_load(m, a, first, 0);
    assert(memory::mapped(m1, a, first.len() as int));
    memory::law_store_then_load(m1, a, second, 0);
    memory::law_store_then_load(m, a, second, 0);
    assert forall|x: u64| #[trigger] m.dom().contains(x) implies memory::stored(m1, a, second)[x]
        == memory::stored(m, a, second)[x] by {
        memory::law_store_then_load(m, a, first, x);
        memory::law_store_then_load(m1, a, second, x);
        memory::law_store_then_load(m, a, second, x);
    }
    assert(memory::stored(m1, a, second) =~= memory::stored(m, a, second));
}

/// Setting a breakpoint once more does not change what clearing it gives.
proof fn lemma_clear_forgets_set(b: BreaksView, mem: Map<u64, u8>, addr: u32)
    ensures
        b.set(mem, addr).0.cleared(b.set(mem, addr).1, addr) == b.cleared(mem, addr),
{
    let a = even(addr);
    let (b1, m1, ok) = b.set(mem, addr);
    let (b2, m2) = b1.cleared(m1, addr);
    assert(b2 =~= b.cleared(mem, addr).0);
    if ok {
        let kept = b1.saved[a];
        let back = seq![kept.0, kept.1];
        lemma_stored_twice(mem, a as int, seq![TRAP, TRAP], back);
        assert(m2 == memory::stored(mem, a as int, back));
        if !b.saved.dom().contains(a) {
            memory::law_store_then_load(mem, a as int, back, 0);
            assert forall|x: u64| #[trigger] mem.dom().contains(x) implies m2[x] == mem[x] by {
                memory::law_store_then_load(mem, a as int, back, x);
                if a <= x < a + 2 {
                    assert(memory::bytes_of(mem, a as int, 2)[x - a] == mem[x]);
                }
            }
            assert(m2 =~= mem);
        }
    }
}

/// Clearing a breakpoint undoes setting it, however often it was set: memory and list are what
/// they are if it is cleared without having been set. In particular, the instruction that was
/// there before it was set for the first time is there again.
pub proof fn law_clear_undoes_set(b: BreaksView, mem: Map<u64, u8>, addr: u32, n: nat)
    ensures
        ({
            let (b1, m1) = b.set_times(mem, addr, n);
            let (b2, m2) = b1.cleared(m1, addr);
            &&& n > 0 ==> b1.breaks.contains(even(addr))
            &&& (b2, m2) == b.cleared(mem, addr)
            &&& !b2.breaks.contains(even(addr))
            &&& !b.saved.dom().contains(even(addr)) ==> m2 == mem
            &&& !b.saved.dom().contains(even(addr)) && !b.breaks.contains(even(addr)) ==> b2 == b
        }),
    decreases n,
{
    if n > 0 {
        law_clear_undoes_set(b, mem, addr, (n - 1) as nat);
        let (b1, m1) = b.set_times(mem, addr, (n - 1) as nat);
        lemma_clear_forgets_set(b1, m1, addr);
    }
    assert(!b.saved.dom().contains(even(addr)) && !b.breaks.contains(even(addr))
        ==> b.cleared(mem, addr).0 =~= b);
}

/// Whatever breakpoints are set and cleared, the code of the firmware stays what it was: where
/// a trap stands, what it replaced is kept.
pub proof fn law_code_is_kept(b: BreaksView, mem: Map<u64, u8>, addr: u32, x: u64)
    requires
        b.wf(mem),
    ensures
        ({
            let (b1, m1, ok) = b.set(mem, addr);
            &&& b1.wf(m1)
            &&& b1.code_at(m1, x) == b.code_at(mem, x)
        }),
        ({
            let (b1, m1) = b.cleared(mem, addr);
            &&& b1.wf(m1)
            &&& b1.code_at(m1, x) == b.code_at(mem, x)
        }),
{
    let a = even(addr);
    lemma_even(addr);
    let at = (x - x % 2) as u32;
    if memory::mapped(mem, a as int, 2) {
        memory::law_store_then_load(mem, a as int, seq![TRAP, TRAP], x);
        if a <= x < a + 2 {
            assert(memory::bytes_of(mem, a as int, 2)[x - a] == mem[x]);
            assert(at == a);
        }
    }
    if b.saved.dom().contains(a) {
        let back = seq![b.saved[a].0, b.saved[a].1];
        memory::law_store_then_load(mem, a as int, back, x);
        if a <= x < a + 2 {
            assert(at == a);
        }
    }
}

/// A breakpoint puts the bytes BE BE at its even address and lists it there; the rest of memory
/// stays, and what stood there is kept when it is set for the first time. Where there is no memory
/// it is only listed.
pub proof fn law_trap_is_placed(b: BreaksView, mem: Map<u64, u8>, addr: u32, x: u64)
    ensures
        ({
            let a = addr - addr % 2;
            let (t, m, ok) = b.set(mem, addr);
            let there = mem.dom().contains(a as u64) && mem.dom().contains((a + 1) as u64);
            &&& ok <==> there
            &&& forall|k: u32| #[trigger] t.breaks.contains(k) <==> k == a || b.breaks.contains(k)
            &&& ok ==> m[x] == if x == a || x == a + 1 {
                0xBE
            } else {
                mem[x]
            }
            &&& ok && !b.saved.dom().contains(a as u32) ==> t.saved.dom().contains(a as u32)
                && t.saved[a as u32] == (mem[a as u64], mem[(a + 1) as u64])
            &&& b.saved.dom().contains(a as u32) ==> t.saved == b.saved
            &&& !ok ==> m == mem && t.saved == b.saved
            &&& t.hit == b.hit
        }),
{
    let a = (addr - addr % 2) as u32;
    lemma_even(addr);
    assert(memory::mapped(mem, a as int, 2) <==> mem.dom().contains(a as u64) && mem.dom().contains(
        (a + 1) as u64,
    )) by {
        if mem.dom().contains(a as u64) && mem.dom().contains((a + 1) as u64) {
            assert forall|i: int| a <= i < a + 2 implies 0 <= i <= u64::MAX
                && #[trigger] mem.dom().contains(i as u64) by {
                assert(i == a || i == a + 1);
            }
        }
        if memory::mapped(mem, a as int, 2) {
            assert(mem.dom().contains((a as int) as u64));
            assert(mem.dom().contains((a + 1) as u64));
        }
    }
    if memory::mapped(mem, a as int, 2) {
        memory::law_store_then_load(mem, a as int, seq![0xBEu8, 0xBEu8], x);
        let bytes = memory::bytes_of(mem, a as int, 2);
        assert(bytes[0] == mem[a as u64] && bytes[1] == mem[(a + 1) as u64]);
    }
}

} // verus!
