//! How the simulated clocks relate to the work that the engine has done.
//!
//! The engine counts retired bytes of code. A byte stands for one processor cycle; the timers
//! run on a declared clock of 84 MHz, which is a fixed fraction of the byte stream.
use vstd::prelude::*;

verus! {

/// Retired bytes in a second of the script clock.
pub const VIRTUAL_INSNS_PER_SEC: u64 = 172_000_000;

/// Retired bytes in a millisecond of the firmware's own clock.
pub const RETIRED_BYTES_PER_MS: usize = 95_600;

/// Timer cycles for `TIMER_CYC84_PER_BYTE_DEN` retired bytes.
pub const TIMER_CYC84_PER_BYTE_NUM: u64 = 210;

pub const TIMER_CYC84_PER_BYTE_DEN: u64 = 239;

/// The count of processor cycles since power-on.
#[derive(Debug, Clone, Copy, PartialEq, Eq, Structural)]
pub struct VirtualClock {
    pub cycles: u64,
}

impl VirtualClock {
    pub fn new() -> (r: Self)
        ensures
            r.cycles == 0,
    {
        VirtualClock { cycles: 0 }
    }

    pub fn advance(&mut self, cycles: u64)
        requires
            old(self).cycles + cycles <= u64::MAX,
        ensures
            final(self).cycles == old(self).cycles + cycles,
    {
        self.cycles = self.cycles + cycles;
    }
}

/// Turns retired bytes into timer cycles. What does not make a whole cycle is kept for the
/// next time.
#[derive(Debug, Clone, Copy, PartialEq, Eq, Structural)]
pub struct TimerPace {
    pub rest: u64,
}

impl TimerPace {
    /// The rest never makes a whole cycle.
    pub open spec fn wf(self) -> bool {
        self.rest < TIMER_CYC84_PER_BYTE_DEN
    }

    /// The timer cycles for this many bytes, and the rest that is kept.
    pub open spec fn after(self, bytes: u32) -> (u64, TimerPace) {
        let acc = self.rest + bytes * TIMER_CYC84_PER_BYTE_NUM;
        (
            (acc / TIMER_CYC84_PER_BYTE_DEN as int) as u64,
            TimerPace { rest: (acc % TIMER_CYC84_PER_BYTE_DEN as int) as u64 },
        )
    }

    pub fn new() -> (r: Self)
        ensures
            r.rest == 0,
            r.wf(),
    {
        TimerPace { rest: 0 }
    }

    /// Takes up retired bytes and hands out timer cycles.
    pub fn take(&mut self, bytes: u32) -> (r: u64)
        requires
            old(self).wf(),
        ensures
            final(self).wf(),
            (r, *final(self)) == old(self).after(bytes),
    {
        let acc = self.rest + bytes as u64 * TIMER_CYC84_PER_BYTE_NUM;
        self.rest = acc % TIMER_CYC84_PER_BYTE_DEN;
        acc / TIMER_CYC84_PER_BYTE_DEN
    }
}

/// The timer cycles handed out for a run of blocks of code.
pub open spec fn timer_cycles(pace: TimerPace, blocks: Seq<u32>) -> int
    decreases blocks.len(),
{
    if blocks.len() == 0 {
        0
    } else {
        let (c, p) = pace.after(blocks[0]);
        c + timer_cycles(p, blocks.skip(1))
    }
}

/// The bytes of a run of blocks.
pub open spec fn total(blocks: Seq<u32>) -> int
    decreases blocks.len(),
{
    if blocks.len() == 0 {
        0
    } else {
        blocks[0] + total(blocks.skip(1))
    }
}

/// However the code is cut into blocks, the timers get 210 cycles for every 239 bytes: nothing
/// is lost to rounding.
pub proof fn law_no_drift(pace: TimerPace, blocks: Seq<u32>)
    requires
        pace.wf(),
    ensures
        timer_cycles(pace, blocks) == (pace.rest + total(blocks) * TIMER_CYC84_PER_BYTE_NUM)
            / TIMER_CYC84_PER_BYTE_DEN as int,
    decreases blocks.len(),
{
    if blocks.len() > 0 {
        let acc = pace.rest + blocks[0] * 210;
        let (c, p) = pace.after(blocks[0]);
        law_no_drift(p, blocks.skip(1));
        let t = total(blocks.skip(1));
        assert(acc == 239 * (acc / 239) + acc % 239);
        assert((pace.rest + total(blocks) * 210) == 239 * (acc / 239) + (acc % 239 + t * 210));
        let q = acc / 239;
        let x = acc % 239 + t * 210;
        assert((239 * q + x) / 239 == q + x / 239) by (nonlinear_arith);
    }
}

/// The budget of a look at the control loop: far less than a turn of it.
pub const POLL_BYTES: usize = 20_000;

/// How often to look before giving up.
pub const MAX_POLLS: u32 = 20_000;

/// The variable in which the firmware counts the turns of its control loop.
pub fn control_tick_symbol() -> (r: &'static str)
    ensures
        r@ == "CTRL_TICKS"@,
{
    "CTRL_TICKS"
}

/// Waits for the control loop of the firmware to complete a turn.
///
/// The turns of the loop are the time base: whoever steps a model along with the firmware
/// steps it once per turn, so that both always meet at the same point of the turn.
#[derive(Debug, Clone, Copy, PartialEq, Eq, Structural)]
pub struct TurnWatch {
    /// The count of turns at the start.
    pub count: u32,
    /// The time at the start, in milliseconds of the firmware.
    pub ms: u64,
    /// How often it was looked at.
    pub polls: u32,
}

/// What a look says.
#[derive(Debug, Clone, Copy, PartialEq, Eq, Structural)]
pub enum Turn {
    /// The turn goes on: run a little further.
    Unfinished,
    /// The turn is complete; it took so many milliseconds.
    Complete(u64),
    /// The firmware seems to be stuck.
    Stuck,
}

impl TurnWatch {
    /// Starts to wait.
    pub fn new(count: u32, ms: u64) -> (r: Self)
        ensures
            r == (TurnWatch { count, ms, polls: 0 }),
    {
        TurnWatch { count, ms, polls: 0 }
    }

    /// Looks at the count and the time after the firmware has run a little further.
    pub fn look(&mut self, count: u32, ms: u64) -> (r: Turn)
        requires
            old(self).polls < MAX_POLLS,
        ensures
            *final(self) == (TurnWatch { polls: (old(self).polls + 1) as u32, ..*old(self) }),
            r == if count != old(self).count {
                Turn::Complete(
                    if ms >= old(self).ms {
                        (ms - old(self).ms) as u64
                    } else {
                        0
                    },
                )
            } else if old(self).polls + 1 == MAX_POLLS {
                Turn::Stuck
            } else {
                Turn::Unfinished
            },
    {
        self.polls = self.polls + 1;
        if count != self.count {
            Turn::Complete(
                if ms >= self.ms {
                    ms - self.ms
                } else {
                    0
                },
            )
        } else if self.polls == MAX_POLLS {
            Turn::Stuck
        } else {
            Turn::Unfinished
        }
    }
}

/// The timers run at 84 MHz of the firmware's clock: in a millisecond, which is 95600 retired
/// bytes, they make 84000 cycles, however the bytes are cut into blocks.
pub proof fn law_timers_run_at_their_clock(blocks: Seq<u32>, ms: int)
    requires
        0 <= ms,
        total(blocks) == 95_600 * ms,
    ensures
        timer_cycles(TimerPace { rest: 0 }, blocks) == 84_000 * ms,
        RETIRED_BYTES_PER_MS == 95_600,
{
    law_no_drift(TimerPace { rest: 0 }, blocks);
    assert((95_600 * ms * 210) == 239 * (84_000 * ms));
}

/// A single block of code gives 210 cycles for every 239 bytes; what is left over is kept.
pub proof fn law_pace(pace: TimerPace, bytes: u32)
    requires
        pace.rest < 239,
    ensures
        239 * pace.after(bytes).0 + pace.after(bytes).1.rest == pace.rest + 210 * bytes,
        pace.after(bytes).1.rest < 239,
{
    let acc = pace.rest + bytes * 210;
    assert(acc == 239 * (acc / 239) + acc % 239);
}

} // verus!
