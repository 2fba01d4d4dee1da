//! Ready-made scripts for the faults that a flight controller has to survive.
use crate::fault::{FaultAction, FaultScript, ScriptView};
use vstd::prelude::*;

verus! {

/// A device that falls silent `n` times: from `start` on, every `period`, for `dur`.
pub open spec fn nack_rounds(
    s: ScriptView,
    port: u8,
    addr7: u8,
    start: u64,
    period: u64,
    dur: u64,
    n: int,
) -> ScriptView
    decreases n,
{
    if n <= 0 {
        s
    } else {
        let t = start + (n - 1) * period;
        nack_rounds(s, port, addr7, start, period, dur, n - 1).at(
            t as u64,
            FaultAction::I2cNack { port, addr7, on: true },
        ).at((t + dur) as u64, FaultAction::I2cNack { port, addr7, on: false })
    }
}

/// An I2C device falls silent again and again: from `start` on, every `period`, for `dur`,
/// `times` times.
pub fn i2c_sensor_nack_periodic(
    name: &str,
    port: u8,
    addr7: u8,
    start: u64,
    period: u64,
    dur: u64,
    times: usize,
) -> (r: FaultScript)
    requires
        start + times * period + dur <= u64::MAX,
    ensures
        r@.wf(),
        r@ == nack_rounds(
            ScriptView::empty(name@),
            port,
            addr7,
            start,
            period,
            dur,
            times as int,
        ),
        r@.events.len() == 2 * times,
{
    let mut s = FaultScript::new(name);
    let mut t: u64 = start;
    let mut i: usize = 0;
    while i < times
        invariant
            i <= times,
            t == start + i * period,
            start + times * period + dur <= u64::MAX,
            s@.wf(),
            s@ == nack_rounds(
                ScriptView::empty(name@),
                port,
                addr7,
                start,
                period,
                dur,
                i as int,
            ),
            s@.events.len() == 2 * i,
        decreases times - i,
    {
        assert((i + 1) * period <= times * period && i * period + period == (i + 1) * period)
            by (nonlinear_arith)
            requires
                0 <= i < times,
                0 <= period,
        ;
        s = s.at(t, FaultAction::I2cNack { port, addr7, on: true }).at(
            t + dur,
            FaultAction::I2cNack { port, addr7, on: false },
        );
        if i + 1 < times {
            assert(t + period <= u64::MAX);
        }
        t = t + period;
        i = i + 1;
    }
    s
}

/// An I2C device falls silent and stays so.
pub fn i2c_sensor_loss(name: &str, port: u8, addr7: u8, at: u64) -> (r: FaultScript)
    ensures
        r@.wf(),
        r@ == ScriptView::empty(name@).at(at, FaultAction::I2cNack { port, addr7, on: true }),
{
    FaultScript::new(name).at(at, FaultAction::I2cNack { port, addr7, on: true })
}

/// The GPS on USART 2 falls silent.
pub fn gps_loss(at: u64) -> (r: FaultScript)
    ensures
        r@.wf(),
        r@ == ScriptView::empty("gps_loss"@).at(
            at,
            FaultAction::UartDrop { port: 2, frames: u32::MAX },
        ),
{
    FaultScript::new("gps_loss").at(at, FaultAction::UartDrop { port: 2, frames: u32::MAX })
}

/// The remote control on USART 3 falls silent.
pub fn rc_loss(at: u64) -> (r: FaultScript)
    ensures
        r@.wf(),
        r@ == ScriptView::empty("rc_loss"@).at(
            at,
            FaultAction::UartDrop { port: 3, frames: u32::MAX },
        ),
{
    FaultScript::new("rc_loss").at(at, FaultAction::UartDrop { port: 3, frames: u32::MAX })
}

/// Round `k` of a device that falls silent again and again begins `k` periods after the start and
/// ends when its time is over; there are as many rounds as were asked for, and nothing else.
pub proof fn law_rounds(
    name: Seq<char>,
    port: u8,
    addr7: u8,
    start: u64,
    period: u64,
    dur: u64,
    n: int,
    k: int,
)
    requires
        0 <= k < n,
        start + n * period + dur <= u64::MAX,
    ensures
        ({
            let s = nack_rounds(ScriptView::empty(name), port, addr7, start, period, dur, n);
            &&& s.events.len() == 2 * n
            &&& s.events[2 * k].at == start + k * period
            &&& s.events[2 * k].action == FaultAction::I2cNack { port, addr7, on: true }
            &&& s.events[2 * k + 1].at == start + k * period + dur
            &&& s.events[2 * k + 1].action == FaultAction::I2cNack { port, addr7, on: false }
            &&& s.name == name
        }),
    decreases n,
{
    assert((n - 1) * period <= n * period && 0 <= (n - 1) * period && k * period <= n * period && 0
        <= k * period) by (nonlinear_arith)
        requires
            0 <= k < n,
            0 <= period,
    ;
    if n > 1 {
        law_rounds(
            name,
            port,
            addr7,
            start,
            period,
            dur,
            n - 1,
            if k < n - 1 {
                k
            } else {
                0
            },
        );
    } else {
        let e = nack_rounds(ScriptView::empty(name), port, addr7, start, period, dur, 0);
        assert(e == ScriptView::empty(name));
    }
}

} // verus!
