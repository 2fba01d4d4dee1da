//! The machine: processor, memory and devices put together.
//!
//! The instruction engine is outside. It runs the firmware in segments and calls back at every
//! block of code, at every access to a device window and at every supervisor call or exception
//! return. The machine decides: whether the engine has to stop, what happens between two
//! segments, and when a run is over.
use crate::cpu::{CONTROL_SPSEL, CpuContext, CpuView};
use crate::device::{Device, DeviceView};
use crate::fault;
use crate::fault::{FaultAction, FaultScript, ScriptView};
use crate::machine::board::{Board, BoardView, ConnectSource, ConnectTarget};
use crate::machine::breakpoints::{Breakpoints, BreaksView};
use crate::machine::exception::{ExceptionError, Scene, VECTOR_SYSTICK};
use crate::machine::layout::PLACE_RCC;
use crate::machine::rig::{Rig, RigView};
use crate::memory::GuestMemory;
use crate::peripheral::mpu;
use crate::peripheral::mpu::{Access, MemManageFault};
use crate::peripheral::nvic;
use crate::peripheral::nvic::{NvicView, StopReason};
use crate::peripheral::wdog::ResetReason;
use crate::peripheral::Peripheral;
use crate::timing::{RETIRED_BYTES_PER_MS, TimerPace, VirtualClock};
use crate::wires::WiresView;
use std::collections::HashMap;
use vstd::prelude::*;

pub mod access;
pub mod board;
pub mod boot;
pub mod breakpoints;
pub mod cycles;
pub mod exception;
pub mod layout;
pub mod rig;
pub mod routes;

verus! {

broadcast use vstd::std_specs::hash::group_hash_axioms;

/// The most segments that one run may have; a storm of interrupts ends it.
pub const MAX_SEGMENTS: u64 = 1_000_000;

/// The most rounds that a run by milliseconds may have.
pub const MAX_ROUNDS: u32 = 64;

/// The number of vectors whose entries are counted.
pub const VECTOR_COUNT: usize = 97;

/// The machine.
pub struct Machine {
    pub board: Board,
    clock: VirtualClock,
    pace: TimerPace,
    data_hook: bool,
    dma_ticks: u32,
    initial_sp: u32,
    entry: u32,
    run_iterations: u64,
    retired: u64,
    last_virt_retired: u64,
    vec_entries: Vec<u64>,
    run_ms_target: u64,
    last_switch_pc: u32,
    fault: Option<FaultScript>,
    uart_drop: HashMap<u8, u32>,
    halt_requested: bool,
    pub gdb: Breakpoints,
    pub rig: Rig,
}

/// The state of the machine.
#[verifier::ext_equal]
pub struct MachineView {
    pub board: BoardView,
    /// Processor cycles since power-on.
    pub clock: u64,
    pub pace: TimerPace,
    /// Are the data accesses of the firmware checked?
    pub data_hook: bool,
    /// Counts blocks, so that waiting transfers are looked at now and then.
    pub dma_ticks: u32,
    pub initial_sp: u32,
    pub entry: u32,
    /// Segments since power-on.
    pub run_iterations: u64,
    /// Retired bytes of code.
    pub retired: u64,
    /// The retired count up to which the virtual devices have advanced.
    pub last_virt_retired: u64,
    /// How often each vector was entered.
    pub vec_entries: Seq<u64>,
    pub run_ms_target: u64,
    /// Where the last interrupt struck.
    pub last_switch_pc: u32,
    pub fault: Option<ScriptView>,
    pub uart_drop: Map<u8, u32>,
    pub halt_requested: bool,
    pub gdb: BreaksView,
    /// What hangs on the serial buses.
    pub rig: RigView,
}

impl View for Machine {
    type V = MachineView;

    closed spec fn view(&self) -> MachineView {
        MachineView {
            board: self.board@,
            clock: self.clock.cycles,
            pace: self.pace,
            data_hook: self.data_hook,
            dma_ticks: self.dma_ticks,
            initial_sp: self.initial_sp,
            entry: self.entry,
            run_iterations: self.run_iterations,
            retired: self.retired,
            last_virt_retired: self.last_virt_retired,
            vec_entries: self.vec_entries@,
            run_ms_target: self.run_ms_target,
            last_switch_pc: self.last_switch_pc,
            fault: match self.fault {
                Some(s) => Some(s@),
                None => None,
            },
            uart_drop: self.uart_drop@,
            halt_requested: self.halt_requested,
            gdb: self.gdb@,
            rig: self.rig@,
        }
    }
}

/// The vector that is taken, if any: see [`NvicView::selects_vector`].
pub open spec fn chosen(n: NvicView, primask: bool, basepri: u8) -> Option<u32> {
    choose|r: Option<u32>| n.selects_vector(primask, basepri, r)
}

proof fn lemma_chosen(n: NvicView, primask: bool, basepri: u8, r: Option<u32>)
    requires
        n.selects_vector(primask, basepri, r),
    ensures
        r == chosen(n, primask, basepri),
{
    nvic::law_selection_is_unique(n, primask, basepri, r, chosen(n, primask, basepri));
}

impl MachineView {
    /// The parts are in shape.
    pub open spec fn wf(self) -> bool {
        &&& self.board.wf()
        &&& self.pace.wf()
        &&& self.vec_entries.len() == VECTOR_COUNT
        &&& self.fault matches Some(s) ==> s.wf()
        &&& self.last_virt_retired <= self.retired
    }

    pub open spec fn fresh() -> MachineView {
        MachineView {
            board: BoardView::fresh(),
            clock: 0,
            pace: TimerPace { rest: 0 },
            data_hook: false,
            dma_ticks: 0,
            initial_sp: 0,
            entry: 0,
            run_iterations: 0,
            retired: 0,
            last_virt_retired: 0,
            vec_entries: Seq::new(VECTOR_COUNT as nat, |i: int| 0u64),
            run_ms_target: 0,
            last_switch_pc: 0,
            fault: None,
            uart_drop: Map::empty(),
            halt_requested: false,
            gdb: BreaksView { breaks: Set::empty(), saved: Map::empty(), hit: false },
            rig: RigView::bare(),
        }
    }

    pub open spec fn with_board(self, board: BoardView) -> MachineView {
        MachineView { board, ..self }
    }

    pub open spec fn nvic(self) -> NvicView {
        self.board.w.nvic
    }

    /// The engine is told to stop, for a reason.
    pub open spec fn stopping(self, reason: StopReason) -> MachineView {
        self.with_board(
            BoardView {
                w: WiresView {
                    nvic: NvicView { stop: reason, ..self.board.w.nvic },
                    ..self.board.w
                },
                ..self.board
            },
        )
    }

    /// Time passes: the clocks run, and the devices that need it tick.
    pub open spec fn passed(self, size: u32) -> MachineView {
        let (timer, pace) = self.pace.after(size);
        MachineView {
            clock: (self.clock + size) as u64,
            pace,
            board: if self.board.any_active {
                self.board.ticked(size as u64, timer)
            } else {
                self.board
            },
            ..self
        }
    }

    /// Now and then the engine stops for a waiting transfer.
    pub open spec fn dma_checked(self) -> (MachineView, bool) {
        let m = MachineView { dma_ticks: self.dma_ticks.wrapping_add(1), ..self };
        if self.dma_ticks % 256 == 0 && self.board.dma_waits() {
            (m.stopping(StopReason::DmaPending), true)
        } else {
            (m, false)
        }
    }

    /// A pending interrupt that may be taken stops the engine.
    pub open spec fn irq_checked(self, cpu: CpuView) -> (MachineView, bool) {
        match chosen(self.nvic(), cpu.primask != 0, nvic::basepri_threshold(cpu.basepri)) {
            Some(v) => (self.stopping(StopReason::Switch(v)), true),
            None => (self, false),
        }
    }

    /// The engine is about to run a block of `size` bytes at `addr`; says whether it has to
    /// stop. Flags that go up during the block count from the next one on.
    pub open spec fn block(self, cpu: CpuView, addr: u32, size: u32) -> (MachineView, bool) {
        let m = MachineView { retired: (self.retired + size) as u64, ..self };
        let guarded = self.board.w.mpu.enabled;
        if guarded && !self.data_hook {
            (m.stopping(StopReason::MpuEnable), true)
        } else if guarded && self.board.forbidden(addr & !1u32, Access::Fetch, cpu.privileged()) {
            (m.with_board(self.board.faulted(addr & !1u32, Access::Fetch)), true)
        } else {
            let m = m.passed(size);
            if self.board.w.reset is Some {
                (m, true)
            } else {
                let (m, dma) = m.dma_checked();
                if self.nvic().pending_any {
                    let (m, irq) = m.irq_checked(cpu);
                    (m, dma || irq)
                } else {
                    (m, dma)
                }
            }
        }
    }

    pub open spec fn clocks_have_room(self, size: u32) -> bool {
        &&& self.clock + size <= u64::MAX
        &&& self.board.takes_tick(self.pace.after(size).0)
    }

    /// Are the counters far from their end?
    pub open spec fn room_for(self, size: u32) -> bool {
        &&& self.retired + size <= u64::MAX
        &&& self.clocks_have_room(size)
    }
}

impl Machine {
    /// A machine at power-on, with nothing loaded.
    pub fn new_m4f() -> (r: Self)
        ensures
            r@ == MachineView::fresh(),
            r@.wf(),
    {
        let r = Machine {
            board: Board::new(),
            clock: VirtualClock::new(),
            pace: TimerPace::new(),
            data_hook: false,
            dma_ticks: 0,
            initial_sp: 0,
            entry: 0,
            run_iterations: 0,
            retired: 0,
            last_virt_retired: 0,
            vec_entries: vec![0u64; 97],
            run_ms_target: 0,
            last_switch_pc: 0,
            fault: None,
            uart_drop: HashMap::new(),
            halt_requested: false,
            gdb: Breakpoints::new(),
            rig: Rig::new(),
        };
        assert(r@ =~= MachineView::fresh());
        r
    }

    fn pass(&mut self, size: u32)
        requires
            old(self)@.wf(),
            old(self)@.clocks_have_room(size),
        ensures
            final(self)@.wf(),
            final(self)@ == old(self)@.passed(size),
    {
        self.clock.advance(size as u64);
        let timer = self.pace.take(size);
        if self.board.any_active() {
            self.board.tick(size as u64, timer);
        }
    }

    fn stop(&mut self, reason: StopReason)
        requires
            old(self)@.wf(),
            reason matches StopReason::Switch(v) ==> nvic::known_vector(v),
        ensures
            final(self)@.wf(),
            final(self)@ == old(self)@.stopping(reason),
    {
        self.board.wires.nvic.set_stop_reason(reason);
    }

    fn check_dma(&mut self) -> (r: bool)
        requires
            old(self)@.wf(),
        ensures
            final(self)@.wf(),
            (final(self)@, r) == old(self)@.dma_checked(),
    {
        let due = self.dma_ticks % 256 == 0 && self.board.dma_waits();
        self.dma_ticks = self.dma_ticks.wrapping_add(1);
        if due {
            self.stop(StopReason::DmaPending);
        }
        due
    }

    fn check_irq(&mut self, cpu: &CpuContext) -> (r: bool)
        requires
            old(self)@.wf(),
        ensures
            final(self)@.wf(),
            (final(self)@, r) == old(self)@.irq_checked(cpu@),
    {
        let basepri = nvic::basepri_to_prio(cpu.basepri);
        let picked = self.board.wires.nvic.select_pending_vector(cpu.primask != 0, basepri);
        proof {
            lemma_chosen(self@.nvic(), cpu@.primask != 0, basepri, picked);
        }
        match picked {
            Some(v) => {
                self.stop(StopReason::Switch(v));
                true
            },
            None => false,
        }
    }

    /// Can the counters take another block?
    pub fn has_room_for(&self, size: u32) -> (r: bool)
        requires
            self@.wf(),
        ensures
            r == self@.room_for(size),
    {
        if self.retired > u64::MAX - size as u64 || self.clock.cycles > u64::MAX - size as u64 {
            return false;
        }
        let mut pace = self.pace;
        let timer = pace.take(size);
        self.board.takes_tick(timer)
    }

    /// The engine is about to run a block of code; says whether it has to stop.
    pub fn block(&mut self, cpu: &CpuContext, addr: u32, size: u32) -> (r: bool)
        requires
            old(self)@.wf(),
            old(self)@.room_for(size),
        ensures
            final(self)@.wf(),
            (final(self)@, r) == old(self)@.block(cpu@, addr, size),
    {
        let guarded = self.board.wires.mpu.enabled();
        let resetting = self.board.wires.reset.is_pending();
        let pending = self.board.wires.nvic.pending_any();
        self.retired = self.retired + size as u64;
        if guarded && !self.data_hook {
            self.stop(StopReason::MpuEnable);
            return true;
        }
        if guarded && self.board.refuse(cpu.privileged(), addr & !1u32, Access::Fetch) {
            return true;
        }
        self.pass(size);
        if resetting {
            return true;
        }
        let dma = self.check_dma();
        if pending {
            let irq = self.check_irq(cpu);
            dma || irq
        } else {
            dma
        }
    }
}

/// A run by budget: how far it is.
#[derive(Debug, Clone, Copy, PartialEq, Eq, Structural)]
pub struct Run {
    /// The bytes of code that were asked for.
    pub count: usize,
    /// What is left of them.
    pub remaining: usize,
    /// The retired count at the start.
    pub retired_base: u64,
    /// The number of segments at the start.
    pub base_iters: u64,
}

/// What comes next in a run.
#[derive(Debug, Clone, Copy, PartialEq, Eq, Structural)]
pub enum Go {
    /// A segment of at most this many bytes.
    Execute(usize),
    /// Another segment, if the budget allows it.
    Continue,
    /// The processor starts anew, then another segment.
    Restart { sp: u32, pc: u32 },
    /// The run is over.
    Done,
}

/// What a segment leaves to do.
#[derive(Debug)]
pub struct Segment {
    pub go: Go,
    /// Are the checks of data accesses to be put in place now?
    pub install: bool,
    /// The scripted faults that fired, and have taken effect.
    pub actions: Vec<FaultAction>,
}

/// A segment in the model.
pub struct SegmentView {
    pub go: Go,
    pub install: bool,
    pub actions: Seq<FaultAction>,
}

impl View for Segment {
    type V = SegmentView;

    open spec fn view(&self) -> SegmentView {
        SegmentView { go: self.go, install: self.install, actions: self.actions@ }
    }
}

/// Why a run failed.
#[derive(Debug, Clone, Copy, PartialEq, Eq, Structural)]
pub enum RunError {
    /// The memory protection unit stopped an access.
    MemManage(MemManageFault),
    /// An exception could not be entered.
    Exception(ExceptionError),
}

/// A result in the model.
pub open spec fn segment_of(r: Result<Segment, RunError>) -> Result<SegmentView, RunError> {
    match r {
        Ok(s) => Ok(s@),
        Err(e) => Err(e),
    }
}

/// All that the end of a segment touches.
pub struct World {
    pub m: MachineView,
    pub cpu: CpuView,
    pub mem: Map<u64, u8>,
}

impl MachineView {
    /// A scripted fault that is due fires.
    pub open spec fn fault_stepped(self) -> (MachineView, Seq<FaultAction>) {
        match self.fault {
            None => (self, Seq::empty()),
            Some(s) => {
                let actions = s.due_actions(s.events.len() as int, self.retired);
                (
                    MachineView {
                        fault: Some(s.stepped(self.retired)),
                        uart_drop: fault::applied_all(self.uart_drop, actions),
                        halt_requested: self.halt_requested || actions.contains(FaultAction::Halt),
                        rig: self.rig.after_faults(actions),
                        ..self
                    },
                    actions,
                )
            },
        }
    }

    /// Before a segment: the run goes on unless the budget is used up, the run is halted, or
    /// there were too many segments.
    pub open spec fn begun(self, run: Run) -> (MachineView, SegmentView) {
        if run.remaining == 0 || self.halt_requested {
            (
                self,
                SegmentView { go: Go::Done, install: false, actions: Seq::empty() },
            )
        } else {
            let (m, actions) = self.fault_stepped();
            if m.halt_requested || m.run_iterations - run.base_iters >= MAX_SEGMENTS {
                (m, SegmentView { go: Go::Done, install: false, actions })
            } else {
                (
                    MachineView { run_iterations: (m.run_iterations + 1) as u64, ..m },
                    SegmentView { go: Go::Execute(run.remaining), install: false, actions },
                )
            }
        }
    }

    /// A reset that was asked for is carried out: its reason is noted, and the processor
    /// starts anew.
    pub open spec fn restarted(self, reason: ResetReason) -> MachineView {
        match self.board.bus.devices[PLACE_RCC as int] {
            DeviceView::Rcc(d) => self.with_board(
                BoardView {
                    bus: self.board.bus.with_device(
                        PLACE_RCC as int,
                        DeviceView::Rcc(d.record_reset(reason)),
                    ),
                    w: WiresView { reset: None, ..self.board.w },
                    ..self.board
                },
            ),
            _ => self,
        }
    }

    /// The retired count since a run began.
    pub open spec fn left_of(self, run: Run) -> usize {
        let used = self.retired - run.retired_base;
        if used >= run.count {
            0
        } else {
            (run.count - used) as usize
        }
    }

    /// An interrupt was taken: where it struck and how often it did is noted.
    pub open spec fn switched(self, pc: u32, vector: u32) -> MachineView {
        MachineView {
            last_switch_pc: pc,
            vec_entries: if vector < VECTOR_COUNT {
                self.vec_entries.update(
                    vector as int,
                    (self.vec_entries[vector as int] + 1) as u64,
                )
            } else {
                self.vec_entries
            },
            ..self
        }
    }

    pub open spec fn with_nvic(self, n: NvicView) -> MachineView {
        self.with_board(BoardView { w: WiresView { nvic: n, ..self.board.w }, ..self.board })
    }
}

impl World {
    /// The stop reason is acted upon. Says whether the checks are to be put in place, and
    /// whether the budget ran out.
    pub open spec fn acted(self, reason: StopReason) -> (World, bool, bool, Result<
        (),
        ExceptionError,
    >) {
        match reason {
            StopReason::Switch(v) => {
                let m = self.m.switched(self.cpu.pc, v);
                let (s, r) = (Scene { cpu: self.cpu, mem: self.mem, nvic: m.nvic() }).entered(v);
                (World { m: m.with_nvic(s.nvic), cpu: s.cpu, mem: s.mem }, false, false, r)
            },
            StopReason::MpuEnable => (
                World { m: MachineView { data_hook: true, ..self.m }, ..self },
                !self.m.data_hook,
                false,
                Ok(()),
            ),
            StopReason::Budget => (self, false, true, Ok(())),
            StopReason::Breakpoint => (
                World {
                    m: MachineView { gdb: BreaksView { hit: true, ..self.m.gdb }, ..self.m },
                    ..self
                },
                false,
                false,
                Ok(()),
            ),
            _ => (self, false, false, Ok(())),
        }
    }

    /// After a segment.
    pub open spec fn ended(self, run: Run) -> (World, Run, Result<SegmentView, RunError>) {
        if let Some(reason) = self.m.board.w.reset {
            (
                World { m: self.m.restarted(reason), ..self },
                run,
                Ok(
                    SegmentView {
                        go: Go::Restart { sp: self.m.initial_sp, pc: self.m.entry | 1 },
                        install: false,
                        actions: Seq::empty(),
                    },
                ),
            )
        } else if let Some(f) = self.m.board.w.mpu.pending_fault() {
            (self, run, Err(RunError::MemManage(f)))
        } else {
            let (board, mem) = self.m.board.pumped(self.mem);
            let m = self.m.with_board(board);
            let reason = m.nvic().stop;
            let x = World { m: m.stopping(StopReason::Budget), mem, ..self };
            let (y, install, exhausted, r) = x.acted(reason);
            match r {
                Err(e) => (y, run, Err(RunError::Exception(e))),
                Ok(()) => if reason == StopReason::Breakpoint {
                    (y, run, Ok(SegmentView { go: Go::Done, install, actions: Seq::empty() }))
                } else {
                    let (m, actions) = y.m.fault_stepped();
                    if m.halt_requested {
                        (
                            World { m, ..y },
                            run,
                            Ok(SegmentView { go: Go::Done, install, actions }),
                        )
                    } else {
                        (
                            World { m, ..y },
                            Run { remaining: m.left_of(run), ..run },
                            Ok(
                                SegmentView {
                                    go: if exhausted {
                                        Go::Done
                                    } else {
                                        Go::Continue
                                    },
                                    install,
                                    actions,
                                },
                            ),
                        )
                    }
                },
            }
        }
    }

    /// What the end of a segment needs: transfers within the address space, and if an
    /// interrupt is to be taken, room for a frame on the stack and for the count.
    pub open spec fn can_end(self, run: Run) -> bool {
        &&& self.m.board.transfers_fit()
        &&& self.m.nvic().stop matches StopReason::Switch(v) ==> {
            &&& (Scene { cpu: self.cpu, mem: self.mem, nvic: self.m.nvic() }).sp() >= 32
            &&& v < VECTOR_COUNT ==> self.m.vec_entries[v as int] < u64::MAX
        }
        &&& run.retired_base <= self.m.retired
    }
}

impl Machine {
    /// Fires the scripted faults that are due.
    fn step_fault(&mut self) -> (r: Vec<FaultAction>)
        requires
            old(self)@.wf(),
        ensures
            final(self)@.wf(),
            (final(self)@, r@) == old(self)@.fault_stepped(),
    {
        let ghost m0 = self@;
        let actions = match &mut self.fault {
            Some(script) => fault::step_script(script, self.retired, &mut self.uart_drop),
            None => Vec::new(),
        };
        let mut i: usize = 0;
        let mut halt = false;
        while i < actions.len()
            invariant
                i <= actions@.len(),
                halt == actions@.take(i as int).contains(FaultAction::Halt),
            decreases actions@.len() - i,
        {
            let is_halt = match &actions[i] {
                FaultAction::Halt => true,
                _ => false,
            };
            proof {
                lemma_contains_step(actions@, i as int, FaultAction::Halt);
            }
            halt = halt || is_halt;
            i = i + 1;
        }
        assert(actions@.take(actions@.len() as int) =~= actions@);
        if halt {
            self.halt_requested = true;
        }
        self.rig.apply_faults(&actions);
        proof {
            if m0.fault is None {
                assert(actions@ =~= Seq::<FaultAction>::empty());
            }
            assert(self@ =~= m0.fault_stepped().0);
        }
        actions
    }

    /// Starts a run by budget.
    pub fn run_budget(&self, count: usize) -> (r: Run)
        ensures
            r == (Run {
                count,
                remaining: count,
                retired_base: self@.retired,
                base_iters: self@.run_iterations,
            }),
    {
        Run {
            count,
            remaining: count,
            retired_base: self.retired,
            base_iters: self.run_iterations,
        }
    }

    /// Decides what comes next in a run.
    pub fn begin_segment(&mut self, run: &Run) -> (r: Segment)
        requires
            old(self)@.wf(),
            run.base_iters <= old(self)@.run_iterations < u64::MAX,
        ensures
            final(self)@.wf(),
            (final(self)@, r@) == old(self)@.begun(*run),
    {
        if run.remaining == 0 || self.halt_requested {
            return Segment { go: Go::Done, install: false, actions: Vec::new() };
        }
        let actions = self.step_fault();
        if self.halt_requested || self.run_iterations - run.base_iters >= MAX_SEGMENTS {
            return Segment { go: Go::Done, install: false, actions };
        }
        self.run_iterations = self.run_iterations + 1;
        Segment { go: Go::Execute(run.remaining), install: false, actions }
    }
}

impl Machine {
    /// Carries out a reset that was asked for.
    fn restart(&mut self, reason: ResetReason)
        requires
            old(self)@.wf(),
            old(self)@.board.w.reset == Some(reason),
        ensures
            final(self)@.wf(),
            final(self)@ == old(self)@.restarted(reason),
    {
        let ghost m0 = self@;
        let ghost d0 = m0.board.bus.devices[PLACE_RCC as int];
        assert(layout::fits(PLACE_RCC as int, d0));
        assert(Device::inv(d0));
        let _ = self.board.wires.reset.take();
        match self.board.bus.device_mut(PLACE_RCC) {
            Device::Rcc(d) => {
                d.record_reset(reason);
            },
            _ => {},
        }
        proof {
            board::lemma_placed(
                m0.board.bus,
                PLACE_RCC as int,
                self.board.bus@.devices[PLACE_RCC as int],
            );
            assert(self@ =~= m0.restarted(reason));
        }
    }

    fn enter<M: GuestMemory>(&mut self, cpu: &mut CpuContext, mem: &mut M, vector: u32) -> (r:
        Result<(), ExceptionError>)
        requires
            old(self)@.wf(),
            nvic::known_vector(vector),
            (Scene { cpu: old(cpu)@, mem: old(mem)@, nvic: old(self)@.nvic() }).sp() >= 32,
            vector < VECTOR_COUNT ==> old(self)@.vec_entries[vector as int] < u64::MAX,
        ensures
            final(self)@.wf(),
            ({
                let m = old(self)@.switched(old(cpu)@.pc, vector);
                let (s, q) = (Scene {
                    cpu: old(cpu)@,
                    mem: old(mem)@,
                    nvic: old(self)@.nvic(),
                }).entered(vector);
                &&& r == q
                &&& final(self)@ == m.with_nvic(s.nvic)
                &&& final(cpu)@ == s.cpu
                &&& final(mem)@ == s.mem
            }),
    {
        let ghost m0 = self@;
        self.last_switch_pc = cpu.pc;
        if (vector as usize) < VECTOR_COUNT {
            let n = self.vec_entries[vector as usize];
            self.vec_entries.set(vector as usize, n + 1);
        }
        let ghost m1 = m0.switched(cpu@.pc, vector);
        assert(self@ =~= m1);
        let r = exception::enter_exception(cpu, mem, &mut self.board.wires.nvic, vector);
        self.board.wires.shape();
        assert(self@ =~= m1.with_nvic(self@.nvic()));
        r
    }

    fn act<M: GuestMemory>(&mut self, cpu: &mut CpuContext, mem: &mut M, reason: StopReason) -> (r:
        Result<(bool, bool), ExceptionError>)
        requires
            old(self)@.wf(),
            reason matches StopReason::Switch(v) ==> {
                &&& nvic::known_vector(v)
                &&& (Scene { cpu: old(cpu)@, mem: old(mem)@, nvic: old(self)@.nvic() }).sp() >= 32
                &&& v < VECTOR_COUNT ==> old(self)@.vec_entries[v as int] < u64::MAX
            },
        ensures
            final(self)@.wf(),
            ({
                let (y, install, exhausted, q) = (World {
                    m: old(self)@,
                    cpu: old(cpu)@,
                    mem: old(mem)@,
                }).acted(reason);
                &&& final(self)@ == y.m && final(cpu)@ == y.cpu && final(mem)@ == y.mem
                &&& r == match q {
                    Ok(()) => Ok((install, exhausted)),
                    Err(e) => Err(e),
                }
            }),
            final(self)@.retired == old(self)@.retired,
    {
        let ghost m0 = self@;
        match reason {
            StopReason::Switch(v) => match self.enter(cpu, mem, v) {
                Ok(_) => Ok((false, false)),
                Err(e) => Err(e),
            },
            StopReason::MpuEnable => {
                let install = !self.data_hook;
                self.data_hook = true;
                assert(self@ =~= MachineView { data_hook: true, ..m0 });
                Ok((install, false))
            },
            StopReason::Budget => Ok((false, true)),
            StopReason::Breakpoint => {
                self.gdb.hit = true;
                assert(self@ =~= MachineView {
                    gdb: BreaksView { hit: true, ..m0.gdb },
                    ..m0
                });
                Ok((false, false))
            },
            _ => Ok((false, false)),
        }
    }

    /// Can the segment be ended? See [`World::can_end`].
    pub fn can_end(&self, cpu: &CpuContext, run: &Run) -> (r: bool)
        requires
            self@.wf(),
        ensures
            forall|mem: Map<u64, u8>|
                r == #[trigger] (World { m: self@, cpu: cpu@, mem }).can_end(*run),
    {
        if !self.board.transfers_fit() || run.retired_base > self.retired {
            return false;
        }
        match self.board.wires.nvic.stop_reason() {
            StopReason::Switch(v) => {
                let on_psp = !self.board.wires.nvic.in_handler() && cpu.control & CONTROL_SPSEL != 0;
                let sp = if on_psp {
                    cpu.psp
                } else {
                    cpu.msp
                };
                sp >= 32 && ((v as usize) >= VECTOR_COUNT || self.vec_entries[v as usize]
                    < u64::MAX)
            },
            _ => true,
        }
    }

    /// Takes up what a segment left: a reset, a fault, waiting transfers, an interrupt, a
    /// breakpoint. Says what comes next.
    pub fn end_segment<M: GuestMemory>(
        &mut self,
        run: &mut Run,
        cpu: &mut CpuContext,
        mem: &mut M,
    ) -> (r: Result<Segment, RunError>)
        requires
            old(self)@.wf(),
            (World { m: old(self)@, cpu: old(cpu)@, mem: old(mem)@ }).can_end(*old(run)),
        ensures
            final(self)@.wf(),
            ({
                let (y, next, q) = (World {
                    m: old(self)@,
                    cpu: old(cpu)@,
                    mem: old(mem)@,
                }).ended(*old(run));
                &&& final(self)@ == y.m && final(cpu)@ == y.cpu && final(mem)@ == y.mem
                &&& *final(run) == next
                &&& segment_of(r) == q
            }),
    {
        let ghost x0 = World { m: self@, cpu: cpu@, mem: mem@ };
        if let Some(reason) = self.board.wires.reset.reason {
            self.restart(reason);
            return Ok(
                Segment {
                    go: Go::Restart { sp: self.initial_sp, pc: self.entry | 1 },
                    install: false,
                    actions: Vec::new(),
                },
            );
        }
        if let Some(f) = self.board.wires.mpu.pending_fault() {
            return Err(RunError::MemManage(f));
        }
        self.board.pump(mem);
        let ghost m1 = self@;
        let reason = self.board.wires.nvic.take_stop_reason();
        self.board.wires.shape();
        assert(self@ =~= m1.stopping(StopReason::Budget));
        let (install, exhausted) = match self.act(cpu, mem, reason) {
            Ok(p) => p,
            Err(e) => {
                return Err(RunError::Exception(e));
            },
        };
        if reason == StopReason::Breakpoint {
            return Ok(Segment { go: Go::Done, install, actions: Vec::new() });
        }
        let actions = self.step_fault();
        if self.halt_requested {
            return Ok(Segment { go: Go::Done, install, actions });
        }
        let used = self.retired - run.retired_base;
        run.remaining =
        if used >= run.count as u64 {
            0
        } else {
            run.count - used as usize
        };
        Ok(
            Segment {
                go: if exhausted {
                    Go::Done
                } else {
                    Go::Continue
                },
                install,
                actions,
            },
        )
    }
}

/// Where the memory protection unit guards the data of the firmware: flash, core-coupled and
/// static memory.
pub open spec fn in_data(addr: u32) -> bool {
    0x0800_0000 <= addr < 0x2002_0000
}

/// The engine's number for an exception return.
pub const INTR_EXCEPTION_RETURN: u32 = 8;

/// The engine's number for a supervisor call.
pub const INTR_SVC: u32 = 2;

impl MachineView {
    /// The firmware reads or writes data.
    pub open spec fn touched(self, privileged: bool, addr: u32, access: Access) -> (
        MachineView,
        bool,
    ) {
        if self.data_hook && in_data(addr) && self.board.w.mpu.enabled && self.board.forbidden(
            addr,
            access,
            privileged,
        ) {
            (self.with_board(self.board.faulted(addr, access)), true)
        } else {
            (self, false)
        }
    }

    /// The nonzero counts of the vectors below `n`.
    pub open spec fn entries_below(self, n: int) -> Seq<(u32, u64)>
        decreases n,
    {
        if n <= 0 {
            Seq::empty()
        } else if self.vec_entries[n - 1] > 0 {
            self.entries_below(n - 1).push(((n - 1) as u32, self.vec_entries[n - 1]))
        } else {
            self.entries_below(n - 1)
        }
    }

    /// A frame for a USART: dropped while the script says so.
    pub open spec fn frame_offered(self, port: u8) -> (MachineView, bool) {
        if self.uart_drop.dom().contains(port) && self.uart_drop[port] > 0 {
            let n = self.uart_drop[port];
            (
                if n == u32::MAX {
                    self
                } else {
                    MachineView { uart_drop: self.uart_drop.insert(port, (n - 1) as u32), ..self }
                },
                false,
            )
        } else {
            (self, true)
        }
    }

    /// The firmware is to run for some milliseconds more.
    pub open spec fn ms_added(self, add: u64) -> MachineView {
        if add == 0 {
            self
        } else {
            MachineView { run_ms_target: (self.ms_base() + add) as u64, ..self }
        }
    }

    /// What further milliseconds count from: the target, or the clock if there is none yet.
    pub open spec fn ms_base(self) -> u64 {
        if self.run_ms_target == 0 {
            self.vec_entries[VECTOR_SYSTICK as int]
        } else {
            self.run_ms_target
        }
    }

    pub open spec fn room_for_ms(self, add: u64) -> bool {
        self.ms_base() + add <= u64::MAX
    }

    /// Has the firmware's own clock not reached its target yet?
    pub open spec fn ms_due(self) -> bool {
        self.vec_entries[VECTOR_SYSTICK as int] < self.run_ms_target
    }
}

impl World {
    /// The engine meets a supervisor call or an exception return. Says whether it has to stop,
    /// and what went wrong.
    pub open spec fn interrupted(self, intno: u32) -> (World, bool, Result<(), ExceptionError>) {
        let s = Scene { cpu: self.cpu, mem: self.mem, nvic: self.m.nvic() };
        if intno == INTR_EXCEPTION_RETURN {
            let (t, r) = s.left(self.cpu.pc);
            (
                World {
                    m: self.m.with_nvic(t.nvic).stopping(StopReason::ExceptionReturn),
                    cpu: t.cpu,
                    mem: t.mem,
                },
                true,
                r,
            )
        } else if intno == INTR_SVC {
            let t = s.called();
            (World { m: self.m.with_nvic(t.nvic), cpu: t.cpu, mem: t.mem }, true, Ok(()))
        } else {
            (self, false, Ok(()))
        }
    }

    /// The stack has room for a frame, or holds one.
    pub open spec fn can_interrupt(self, intno: u32) -> bool {
        let s = Scene { cpu: self.cpu, mem: self.mem, nvic: self.m.nvic() };
        &&& intno == INTR_EXCEPTION_RETURN ==> s.return_sp(self.cpu.pc) + 32 <= u32::MAX
        &&& intno == INTR_SVC ==> s.sp() >= 32
    }
}

impl Machine {
    /// The firmware reads or writes data; says whether the access is blocked.
    pub fn touch(&mut self, privileged: bool, addr: u32, access: Access) -> (r: bool)
        requires
            old(self)@.wf(),
        ensures
            final(self)@.wf(),
            (final(self)@, r) == old(self)@.touched(privileged, addr, access),
    {
        if self.data_hook && addr >= 0x0800_0000 && addr < 0x2002_0000
            && self.board.wires.mpu.enabled() {
            self.board.refuse(privileged, addr, access)
        } else {
            false
        }
    }

    /// Can the interrupt be handled? See [`World::can_interrupt`].
    pub fn can_interrupt(&self, cpu: &CpuContext, intno: u32) -> (r: bool)
        ensures
            forall|mem: Map<u64, u8>|
                r == #[trigger] (World { m: self@, cpu: cpu@, mem }).can_interrupt(intno),
    {
        if intno == INTR_EXCEPTION_RETURN {
            let sp = if cpu.pc & 0x4 != 0 {
                cpu.psp
            } else {
                cpu.msp
            };
            sp <= u32::MAX - 32
        } else if intno == INTR_SVC {
            let on_psp = !self.board.wires.nvic.in_handler() && cpu.control & CONTROL_SPSEL != 0;
            let sp = if on_psp {
                cpu.psp
            } else {
                cpu.msp
            };
            sp >= 32
        } else {
            true
        }
    }

    /// The engine meets a supervisor call or an exception return. Says whether it has to stop,
    /// and what went wrong.
    pub fn interrupt<M: GuestMemory>(&mut self, cpu: &mut CpuContext, mem: &mut M, intno: u32) -> (r:
        (bool, Result<(), ExceptionError>))
        requires
            old(self)@.wf(),
            (World { m: old(self)@, cpu: old(cpu)@, mem: old(mem)@ }).can_interrupt(intno),
        ensures
            final(self)@.wf(),
            ({
                let (y, stop, q) = (World {
                    m: old(self)@,
                    cpu: old(cpu)@,
                    mem: old(mem)@,
                }).interrupted(intno);
                &&& final(self)@ == y.m && final(cpu)@ == y.cpu && final(mem)@ == y.mem
                &&& r == (stop, q)
            }),
    {
        let ghost m0 = self@;
        if intno == INTR_EXCEPTION_RETURN {
            let pc = cpu.pc;
            let r = exception::exception_return(cpu, mem, &mut self.board.wires.nvic, pc);
            self.board.wires.shape();
            assert(self@ =~= m0.with_nvic(self@.nvic()));
            self.stop(StopReason::ExceptionReturn);
            (true, r)
        } else if intno == INTR_SVC {
            exception::svc_entry(cpu, mem, &mut self.board.wires.nvic);
            self.board.wires.shape();
            assert(self@ =~= m0.with_nvic(self@.nvic()));
            (true, Ok(()))
        } else {
            (false, Ok(()))
        }
    }

    /// The engine is about to run the instruction at `pc`; a breakpoint stops it.
    pub fn instruction(&mut self, pc: u32) -> (r: bool)
        requires
            old(self)@.wf(),
        ensures
            final(self)@.wf(),
            r == old(self)@.gdb.breaks.contains(breakpoints::even(pc)),
            final(self)@ == if r {
                old(self)@.stopping(StopReason::Breakpoint)
            } else {
                old(self)@
            },
    {
        if self.gdb.stops_at(pc) {
            self.stop(StopReason::Breakpoint);
            true
        } else {
            false
        }
    }

    /// A frame for a USART: says whether it is let through.
    pub fn offer_frame(&mut self, port: u8) -> (r: bool)
        requires
            old(self)@.wf(),
        ensures
            final(self)@.wf(),
            (final(self)@, r) == old(self)@.frame_offered(port),
    {
        let n: u32 = match self.uart_drop.get(&port) {
            Some(n) => *n,
            None => 0,
        };
        if n == 0 {
            return true;
        }
        if n != u32::MAX {
            self.uart_drop.insert(port, n - 1);
        }
        assert(self@ =~= old(self)@.frame_offered(port).0);
        false
    }

    /// How far the virtual devices have to advance, in retired bytes.
    pub fn virtual_step(&mut self) -> (r: u64)
        requires
            old(self)@.wf(),
        ensures
            final(self)@.wf(),
            r == old(self)@.retired - old(self)@.last_virt_retired,
            final(self)@ == (MachineView {
                last_virt_retired: old(self)@.retired,
                ..old(self)@
            }),
    {
        let r = self.retired - self.last_virt_retired;
        self.last_virt_retired = self.retired;
        r
    }

    /// Can the target take some more milliseconds?
    pub fn has_room_for_ms(&self, add: u64) -> (r: bool)
        requires
            self@.wf(),
        ensures
            r == self@.room_for_ms(add),
    {
        add <= u64::MAX - self.ms_base()
    }

    /// What further milliseconds count from.
    fn ms_base(&self) -> (r: u64)
        requires
            self@.wf(),
        ensures
            r == self@.ms_base(),
    {
        if self.run_ms_target == 0 {
            self.vec_entries[15]
        } else {
            self.run_ms_target
        }
    }

    /// Asks for some milliseconds of the firmware's own clock. What an earlier run went too
    /// far counts.
    pub fn add_ms(&mut self, add: u64)
        requires
            old(self)@.wf(),
            old(self)@.room_for_ms(add),
        ensures
            final(self)@.wf(),
            final(self)@ == old(self)@.ms_added(add),
    {
        if add == 0 {
            return;
        }
        self.run_ms_target = self.ms_base() + add;
    }

    /// The budget of the next round towards the target, if one is due. A clock that stands
    /// still ends after some rounds.
    pub fn ms_round(&self, rounds: u32) -> (r: Option<usize>)
        requires
            self@.wf(),
        ensures
            r == if rounds < MAX_ROUNDS && self@.ms_due() {
                Some((RETIRED_BYTES_PER_MS / 2) as usize)
            } else {
                None
            },
    {
        if rounds < MAX_ROUNDS && self.vec_entries[15] < self.run_ms_target {
            Some(RETIRED_BYTES_PER_MS / 2)
        } else {
            None
        }
    }

    /// Attaches a script of faults.
    pub fn attach_fault_script(&mut self, script: FaultScript)
        requires
            old(self)@.wf(),
            script@.wf(),
        ensures
            final(self)@.wf(),
            final(self)@ == (MachineView { fault: Some(script@), ..old(self)@ }),
    {
        self.fault = Some(script);
    }

    /// Have all scripted faults fired? Without a script there is nothing to wait for.
    pub fn fault_all_fired(&self) -> (r: bool)
        ensures
            r == (self@.fault matches Some(s) ==> s.all_fired()),
    {
        match &self.fault {
            Some(s) => s.all_fired(),
            None => true,
        }
    }

    /// Was the run halted?
    pub fn halted(&self) -> (r: bool)
        ensures
            r == self@.halt_requested,
    {
        self.halt_requested
    }

    /// Lets the run go on.
    pub fn clear_halt(&mut self)
        ensures
            final(self)@ == (MachineView { halt_requested: false, ..old(self)@ }),
            old(self)@.wf() ==> final(self)@.wf(),
    {
        self.halt_requested = false;
    }

    /// Connects a source to a target.
    pub fn connect(&mut self, src: ConnectSource, dst: ConnectTarget)
        ensures
            final(self)@ == old(self)@.with_board(
                BoardView { links: old(self)@.board.links.push((src, dst)), ..old(self)@.board },
            ),
            old(self)@.wf() ==> final(self)@.wf(),
    {
        self.board.connect(src, dst);
    }

    /// Sets a breakpoint in the code. Says whether there is memory to hold it.
    pub fn gdb_set_break<M: GuestMemory>(&mut self, mem: &mut M, addr: u32) -> (r: bool)
        ensures
            ({
                let (b, m, q) = old(self)@.gdb.set(old(mem)@, addr);
                &&& r == q && final(mem)@ == m
                &&& final(self)@ == (MachineView { gdb: b, ..old(self)@ })
            }),
            old(self)@.wf() ==> final(self)@.wf(),
    {
        self.gdb.gdb_set_break(mem, addr)
    }

    /// Clears a breakpoint in the code.
    pub fn gdb_clear_break<M: GuestMemory>(&mut self, mem: &mut M, addr: u32)
        ensures
            ({
                let (b, m) = old(self)@.gdb.cleared(old(mem)@, addr);
                final(mem)@ == m && final(self)@ == (MachineView { gdb: b, ..old(self)@ })
            }),
            old(self)@.wf() ==> final(self)@.wf(),
    {
        self.gdb.gdb_clear_break(mem, addr);
    }

    pub fn gdb_break_hit(&self) -> (r: bool)
        ensures
            r == self@.gdb.hit,
    {
        self.gdb.gdb_break_hit()
    }

    pub fn gdb_break_hit_take(&mut self) -> (r: bool)
        ensures
            r == old(self)@.gdb.hit,
            final(self)@ == (MachineView {
                gdb: BreaksView { hit: false, ..old(self)@.gdb },
                ..old(self)@
            }),
            old(self)@.wf() ==> final(self)@.wf(),
    {
        self.gdb.gdb_break_hit_take()
    }

    pub fn gdb_breaks_len(&self) -> (r: usize)
        ensures
            r == self@.gdb.breaks.len(),
    {
        self.gdb.gdb_breaks_len()
    }

    /// Was a device written to that may need ticks?
    pub fn peripheral_any_active(&self) -> (r: bool)
        ensures
            r == self@.board.any_active,
    {
        self.board.any_active()
    }

    /// How many devices need ticks.
    pub fn peripheral_active_count(&self) -> (r: usize)
        requires
            self@.wf(),
        ensures
            r == self@.board.active_among(layout::DEVICE_COUNT as int),
    {
        self.board.active_count()
    }

    /// Retired bytes of code.
    pub fn retired_count(&self) -> (r: u64)
        ensures
            r == self@.retired,
    {
        self.retired
    }

    /// Milliseconds of the firmware's own clock: how often its timer interrupt was entered.
    pub fn systick_ms(&self) -> (r: u64)
        requires
            self@.wf(),
        ensures
            r == self@.vec_entries[VECTOR_SYSTICK as int],
    {
        self.vec_entries[15]
    }

    /// May an interrupt be pending?
    pub fn nvic_pending(&self) -> (r: bool)
        ensures
            r == self@.nvic().pending_any,
    {
        self.board.wires.nvic.pending_any()
    }

    /// Is memory protection on?
    pub fn mpu_enabled(&self) -> (r: bool)
        ensures
            r == self@.board.w.mpu.enabled,
    {
        self.board.wires.mpu.enabled()
    }

    /// Are the data accesses of the firmware checked?
    pub fn data_hook_active(&self) -> (r: bool)
        ensures
            r == self@.data_hook,
    {
        self.data_hook
    }

    /// Segments since power-on.
    pub fn run_iterations(&self) -> (r: u64)
        ensures
            r == self@.run_iterations,
    {
        self.run_iterations
    }

    /// Where the last interrupt struck.
    pub fn last_switch_pc(&self) -> (r: u32)
        ensures
            r == self@.last_switch_pc,
    {
        self.last_switch_pc
    }

    /// How often each vector was entered, those that were.
    pub fn vec_entries(&self) -> (r: Vec<(u32, u64)>)
        requires
            self@.wf(),
        ensures
            r@ == self@.entries_below(VECTOR_COUNT as int),
    {
        let mut out: Vec<(u32, u64)> = Vec::new();
        let mut v: usize = 0;
        while v < VECTOR_COUNT
            invariant
                v <= VECTOR_COUNT,
                self@.wf(),
                out@ == self@.entries_below(v as int),
            decreases VECTOR_COUNT - v,
        {
            let n = self.vec_entries[v];
            if n > 0 {
                out.push((v as u32, n));
            }
            v = v + 1;
        }
        out
    }

    /// Notes where the firmware starts.
    pub fn set_vectors(&mut self, sp: u32, entry: u32)
        ensures
            final(self)@ == (MachineView { initial_sp: sp, entry, ..old(self)@ }),
            old(self)@.wf() ==> final(self)@.wf(),
    {
        self.initial_sp = sp;
        self.entry = entry;
    }

    /// The stack pointer and the program counter after a reset; bit 0 marks Thumb code.
    pub fn reset(&self) -> (r: (u32, u32))
        ensures
            r == (self@.initial_sp, self@.entry | 1),
    {
        (self.initial_sp, self.entry | 1)
    }

    /// Goes back to a saved point in time.
    pub fn rewind(&mut self, retired: u64)
        ensures
            final(self)@ == (MachineView {
                retired,
                last_virt_retired: retired,
                halt_requested: false,
                ..old(self)@
            }),
            old(self)@.wf() ==> final(self)@.wf(),
    {
        self.retired = retired;
        self.last_virt_retired = retired;
        self.halt_requested = false;
    }
}

/// Milliseconds count from the target before, not from where the clock is by then: what one
/// run went too far, the next one makes up for.
pub proof fn law_overshoot_is_carried(m: MachineView, later: MachineView, a: u64, b: u64)
    requires
        a > 0,
        m.room_for_ms(a),
        later.run_ms_target == m.ms_added(a).run_ms_target,
        later.room_for_ms(b),
    ensures
        later.ms_added(b).run_ms_target == m.ms_base() + a + b,
{
}

/// Every block counts, whatever else happens at it.
pub proof fn law_every_block_counts(m: MachineView, cpu: CpuView, addr: u32, size: u32)
    requires
        m.retired + size <= u64::MAX,
    ensures
        m.block(cpu, addr, size).0.retired == m.retired + size,
        m.block(cpu, addr, size).0.run_iterations == m.run_iterations,
{
}

/// A forbidden fetch is not run: the engine stops and the fault is noted.
pub proof fn law_forbidden_fetch_stops(m: MachineView, cpu: CpuView, addr: u32, size: u32)
    requires
        m.board.w.mpu.enabled,
        m.data_hook,
        m.board.forbidden(addr & !1u32, Access::Fetch, cpu.privileged()),
    ensures
        m.block(cpu, addr, size).1,
        m.block(cpu, addr, size).0.board == m.board.faulted(addr & !1u32, Access::Fetch),
        m.block(cpu, addr, size).0.board.w.mpu.pending_fault() is Some,
{
    let f = mpu::fault_of(addr & !1u32, Access::Fetch);
    mpu::law_recorded_fault_is_pending(m.board.w.mpu, f);
}

/// A run that has used up its budget is over at the next step, and so is a halted one.
pub proof fn law_run_ends(x: World, run: Run)
    requires
        run.retired_base <= x.m.retired,
    ensures
        ({
            let (y, next, r) = x.ended(run);
            r matches Ok(s) ==> s.go == Go::Continue && y.m.retired - run.retired_base >= run.count
                ==> y.m.begun(next).1.go == Go::Done
        }),
        x.m.halt_requested ==> x.m.begun(run) == (x.m, SegmentView {
            go: Go::Done,
            install: false,
            actions: Seq::empty(),
        }),
{
}

proof fn lemma_contains_step(s: Seq<FaultAction>, i: int, a: FaultAction)
    requires
        0 <= i < s.len(),
    ensures
        s.take(i + 1).contains(a) == (s.take(i).contains(a) || s[i] == a),
{
    let (t, u) = (s.take(i), s.take(i + 1));
    if t.contains(a) {
        let k = choose|k: int| 0 <= k < i && t[k] == a;
        assert(u[k] == a);
    }
    if s[i] == a {
        assert(u[i] == a);
    }
    if u.contains(a) {
        let k = choose|k: int| 0 <= k < i + 1 && u[k] == a;
        if k < i {
            assert(t[k] == a);
        }
    }
}

/// A pending exception stops the engine: the one with the best rank that the mask registers let
/// through at this point. BASEPRI holds its threshold in the bits 4 to 7.
pub proof fn law_block_delivers_interrupts(
    m: MachineView,
    cpu: CpuView,
    addr: u32,
    size: u32,
    threshold: u8,
    r: Option<u32>,
)
    requires
        !m.board.w.mpu.enabled,
        m.board.w.reset is None,
        m.dma_ticks % 256 != 0,
        threshold == (cpu.basepri / 16) % 16,
        m.passed(size).nvic().selects_vector(cpu.primask != 0, threshold, r),
    ensures
        ({
            let (y, stop) = m.block(cpu, addr, size);
            &&& !m.board.w.nvic.pending_any ==> !stop && y.nvic().stop == m.passed(size).nvic().stop
            &&& m.board.w.nvic.pending_any ==> match r {
                Some(v) => stop && y.nvic().stop == StopReason::Switch(v),
                None => !stop && y.nvic() == m.passed(size).nvic(),
            }
            &&& y.nvic().pending == m.passed(size).nvic().pending
            &&& y.nvic().sys_pending == m.passed(size).nvic().sys_pending
        }),
{
    let raw = cpu.basepri;
    nvic::lemma_threshold(raw);
    lemma_chosen(m.passed(size).nvic(), cpu.primask != 0, threshold, r);
}

/// A block takes one processor cycle for each byte: the clock goes on by as much, and if a
/// device needs it, the system timer counts them, and the other devices the timer clock's share.
pub proof fn law_block_takes_time(m: MachineView, cpu: CpuView, addr: u32, size: u32)
    requires
        !m.board.w.mpu.enabled,
        m.clock + size <= u64::MAX,
    ensures
        ({
            let y = m.block(cpu, addr, size).0;
            let acc = m.pace.rest + 210 * size;
            &&& y.clock == m.clock + size
            &&& y.pace.rest == (acc % 239) as u64
            &&& y.board.bus == if m.board.any_active {
                m.board.ticked(size as u64, (acc / 239) as u64).bus
            } else {
                m.board.bus
            }
        }),
{
}

/// Memory protection that was switched on stops the engine once, so that its checks can be put
/// in place; from then on a forbidden access to the firmware's data is blocked and noted, and
/// others pass.
pub proof fn law_protection_is_put_in_place(
    m: MachineView,
    cpu: CpuView,
    addr: u32,
    size: u32,
    access: Access,
    privileged: bool,
)
    ensures
        m.board.w.mpu.enabled && !m.data_hook ==> {
            let (y, stop) = m.block(cpu, addr, size);
            &&& stop && y.nvic().stop == StopReason::MpuEnable
            &&& y.clock == m.clock
        },
        ({
            let (y, blocked) = m.touched(privileged, addr, access);
            &&& blocked <==> m.data_hook && 0x0800_0000 <= addr < 0x2002_0000 && m.board.w.mpu.enabled
                && m.board.forbidden(addr, access, privileged)
            &&& blocked ==> y.board == m.board.faulted(addr, access)
            &&& !blocked ==> y == m
        }),
{
}

/// Now and then, every 256 blocks, a waiting transfer stops the engine.
pub proof fn law_transfers_stop_the_engine(m: MachineView)
    ensures
        ({
            let (y, stop) = m.dma_checked();
            let waits = m.board.dma(layout::PLACE_DMA1 as int).pending_transfer != 0 || m.board.dma(
                layout::PLACE_DMA2 as int,
            ).pending_transfer != 0;
            &&& stop <==> m.dma_ticks % 256 == 0 && waits
            &&& stop ==> y.nvic().stop == StopReason::DmaPending
            &&& !stop ==> y.nvic() == m.nvic()
        }),
{
}

/// Before a segment: it gets what is left of the budget and is counted. A run without budget, a
/// halted run and a run of a million segments end.
pub proof fn law_segment_begins(m: MachineView, run: Run)
    requires
        m.fault is None,
        run.base_iters <= m.run_iterations < u64::MAX,
    ensures
        ({
            let (y, s) = m.begun(run);
            let over = run.remaining == 0 || m.halt_requested || m.run_iterations - run.base_iters
                >= 1_000_000;
            &&& over ==> s.go == Go::Done && y == m
            &&& !over ==> s.go == Go::Execute(run.remaining) && y.run_iterations == m.run_iterations
                + 1 && y.board == m.board && y.retired == m.retired
            &&& s.actions.len() == 0 && !s.install
        }),
{
}

/// After a segment that an interrupt stopped: the exception is entered on the processor's stack,
/// counted, and the place is noted; the run goes on with what is left of the budget.
pub proof fn law_segment_ends_with_an_interrupt(x: World, run: Run, v: u32)
    requires
        x.m.wf(),
        x.m.fault is None,
        !x.m.halt_requested,
        x.m.board.w.reset is None,
        x.m.board.w.mpu.pending_fault() is None,
        x.m.board.pumped(x.mem).0.w.nvic.stop == StopReason::Switch(v),
        v < 97,
        x.m.vec_entries[v as int] < u64::MAX,
        run.retired_base <= x.m.retired,
    ensures
        ({
            let (y, next, r) = x.ended(run);
            let (b, mem) = x.m.board.pumped(x.mem);
            let n = NvicView { stop: StopReason::Budget, ..b.w.nvic };
            let (s, q) = (Scene { cpu: x.cpu, mem, nvic: n }).entered(v);
            let used = x.m.retired - run.retired_base;
            &&& y.cpu == s.cpu && y.mem == s.mem && y.m.nvic() == s.nvic
            &&& y.m.last_switch_pc == x.cpu.pc
            &&& y.m.vec_entries[v as int] == x.m.vec_entries[v as int] + 1
            &&& forall|k: int|
                0 <= k < 97 && k != v ==> #[trigger] y.m.vec_entries[k] == x.m.vec_entries[k]
            &&& match q {
                Ok(()) => r matches Ok(g) && g.go == Go::Continue && next.remaining == (if used
                    >= run.count {
                    0
                } else {
                    run.count - used
                }),
                Err(e) => r == Err::<SegmentView, RunError>(RunError::Exception(e)),
            }
        }),
{
}

/// After a segment that ended otherwise: a reset starts the processor anew at the reset vector
/// and is noted, a refused access fails the run, a used up budget or a breakpoint ends it, and
/// memory protection that was switched on has its checks put in place.
pub proof fn law_segment_ends(x: World, run: Run)
    requires
        x.m.wf(),
        x.m.fault is None,
        !x.m.halt_requested,
        run.retired_base <= x.m.retired,
    ensures
        ({
            let (y, next, r) = x.ended(run);
            let stop = x.m.board.pumped(x.mem).0.w.nvic.stop;
            let calm = x.m.board.w.reset is None && x.m.board.w.mpu.pending_fault() is None;
            &&& x.m.board.w.reset is Some ==> {
                &&& r matches Ok(g)
                &&& g.go == Go::Restart { sp: x.m.initial_sp, pc: x.m.entry | 1 }
                &&& y.m.board.w.reset is None && y.mem == x.mem && next == run
            }
            &&& x.m.board.w.reset is None ==> (x.m.board.w.mpu.pending_fault() matches Some(f) ==> r
                == Err::<SegmentView, RunError>(RunError::MemManage(f)))
            &&& calm ==> y.m.nvic().stop == StopReason::Budget || stop is Switch
            &&& calm && stop == StopReason::Budget ==> (r matches Ok(g) && g.go == Go::Done
                && !g.install)
            &&& calm && stop == StopReason::Breakpoint ==> (r matches Ok(g) && g.go == Go::Done
                && y.m.gdb.hit && next == run)
            &&& calm && stop == StopReason::MpuEnable ==> (r matches Ok(g) && g.go == Go::Continue
                && y.m.data_hook && g.install == !x.m.data_hook)
            &&& calm && (stop == StopReason::ExceptionReturn || stop == StopReason::SvcEntry || stop
                == StopReason::DmaPending) ==> (r matches Ok(g) && g.go == Go::Continue && y.cpu
                == x.cpu)
            &&& calm && !(stop is Switch) ==> y.cpu == x.cpu && y.mem == x.m.board.pumped(x.mem).1
        }),
{
    assert(layout::fits(PLACE_RCC as int, x.m.board.bus.devices[PLACE_RCC as int]));
}

/// The engine's number 8 is an exception return, with the value in the program counter, and 2 a
/// supervisor call; both stop the engine. Other numbers are not the machine's.
pub proof fn law_engine_interrupts(x: World, intno: u32)
    ensures
        ({
            let s = Scene { cpu: x.cpu, mem: x.mem, nvic: x.m.nvic() };
            let (y, stop, r) = x.interrupted(intno);
            &&& stop <==> intno == 8 || intno == 2
            &&& intno == 8 ==> {
                &&& (y.cpu, r) == (s.left(x.cpu.pc).0.cpu, s.left(x.cpu.pc).1)
                &&& y.m.nvic().stop == StopReason::ExceptionReturn
                &&& y.m.nvic().stack == s.left(x.cpu.pc).0.nvic.stack
            }
            &&& intno == 2 ==> r is Ok && y.cpu == s.called().cpu && y.mem == s.called().mem
                && y.m.nvic() == s.called().nvic
            &&& !stop ==> y == x && r is Ok
        }),
{
}

/// Frames for a serial port are dropped while its count is not zero; each one that is dropped
/// takes the count down by one, unless it stands for all frames. Other ports keep theirs.
pub proof fn law_frames_are_dropped(m: MachineView, port: u8, other: u8)
    ensures
        ({
            let n = if m.uart_drop.dom().contains(port) {
                m.uart_drop[port] as int
            } else {
                0
            };
            let (y, through) = m.frame_offered(port);
            &&& through <==> n == 0
            &&& 0 < n < u32::MAX ==> y.uart_drop.dom().contains(port) && y.uart_drop[port] == n - 1
            &&& n == 0 || n == u32::MAX ==> y == m
            &&& other != port && m.uart_drop.dom().contains(other) ==> y.uart_drop.dom().contains(
                other,
            ) && y.uart_drop[other] == m.uart_drop[other]
        }),
{
}

/// A reset that was asked for is noted with its reason in the reset and clock controller, and the
/// request is gone; nothing else of the board changes.
pub proof fn law_reset_is_noted(m: MachineView, reason: ResetReason)
    requires
        m.wf(),
    ensures
        ({
            let t = m.restarted(reason);
            let before = m.board.bus.devices[2]->Rcc_0.regs[29];
            let after = t.board.bus.devices[2]->Rcc_0.regs[29];
            &&& t.board.w.reset is None
            &&& reason == ResetReason::Iwdg ==> after == before | 0x1000_0000
            &&& reason == ResetReason::Wwdg ==> after == before | 0x0800_0000
            &&& reason == ResetReason::LowPower ==> after == before | 0x8000_0000
            &&& forall|k: int|
                0 <= k < 36 && k != 2 ==> #[trigger] t.board.bus.devices[k]
                    == m.board.bus.devices[k]
            &&& t.board.w.nvic == m.board.w.nvic && t.retired == m.retired
        }),
{
    assert(crate::machine::layout::fits(2, m.board.bus.devices[2]));
    assert(Device::inv(m.board.bus.devices[2]));
}

/// A scripted fault that is due acts on the machine: a halt stops the run, a silenced device stops
/// acknowledging, and dropped frames are entered in the book. Without a script nothing happens.
pub proof fn law_scripted_faults_act(m: MachineView, s: ScriptView)
    requires
        m.wf(),
        s.wf(),
    ensures
        m.fault is None ==> m.fault_stepped() == (m, Seq::<FaultAction>::empty()),
        m.fault == Some(s) ==> ({
            let (t, actions) = m.fault_stepped();
            &&& actions == s.due_actions(s.events.len() as int, m.retired)
            &&& t.halt_requested == (m.halt_requested || actions.contains(FaultAction::Halt))
            &&& t.rig == m.rig.after_faults(actions)
            &&& t.uart_drop == fault::applied_all(m.uart_drop, actions)
            &&& t.fault == Some(s.stepped(m.retired))
            &&& t.board == m.board && t.retired == m.retired && t.clock == m.clock
        }),
{
}

} // verus!
