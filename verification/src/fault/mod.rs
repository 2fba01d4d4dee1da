//! Scripted faults: at given times a device stops answering, a stream of bytes is dropped, or
//! the run halts for inspection.
//!
//! Times are counts of retired bytes, the clock that the streams of the virtual devices run
//! on too. An event fires once, at the first step at or after its time.
use std::collections::HashMap;
use vstd::prelude::*;

pub mod scenarios;

verus! {

broadcast use vstd::std_specs::hash::group_hash_axioms;

/// What an event does.
#[derive(Debug, Clone, PartialEq, Eq)]
pub enum FaultAction {
    /// A device on an I2C bus stops acknowledging, or starts again.
    I2cNack { port: u8, addr7: u8, on: bool },
    /// The next `frames` frames to a USART are dropped; `u32::MAX` drops them until the
    /// stream is resumed.
    UartDrop { port: u8, frames: u32 },
    /// Frames to a USART are let through again.
    UartResume { port: u8 },
    /// The run stops, so that the state can be looked at.
    Halt,
    /// A note in the log.
    Log { msg: String },
}

impl FaultAction {
    pub fn duplicate(&self) -> (r: Self)
        ensures
            r == *self,
    {
        match self {
            FaultAction::I2cNack { port, addr7, on } => FaultAction::I2cNack {
                port: *port,
                addr7: *addr7,
                on: *on,
            },
            FaultAction::UartDrop { port, frames } => FaultAction::UartDrop {
                port: *port,
                frames: *frames,
            },
            FaultAction::UartResume { port } => FaultAction::UartResume { port: *port },
            FaultAction::Halt => FaultAction::Halt,
            FaultAction::Log { msg } => FaultAction::Log { msg: msg.clone() },
        }
    }
}

/// An action and its time.
#[derive(Debug, Clone, PartialEq, Eq)]
pub struct FaultEvent {
    /// The retired count from which on the event is due.
    pub at: u64,
    pub action: FaultAction,
}

/// A script: events, and which of them have fired.
#[derive(Debug, Clone)]
pub struct FaultScript {
    pub name: String,
    events: Vec<FaultEvent>,
    fired: Vec<bool>,
}

/// The state of a script.
#[verifier::ext_equal]
pub struct ScriptView {
    pub name: Seq<char>,
    pub events: Seq<FaultEvent>,
    pub fired: Seq<bool>,
}

impl View for FaultScript {
    type V = ScriptView;

    closed spec fn view(&self) -> ScriptView {
        ScriptView { name: self.name@, events: self.events@, fired: self.fired@ }
    }
}

/// How many of the flags are up.
pub open spec fn count_of(fired: Seq<bool>) -> int
    decreases fired.len(),
{
    if fired.len() == 0 {
        0
    } else {
        count_of(fired.drop_last()) + if fired.last() {
            1int
        } else {
            0
        }
    }
}

/// The frames still to drop for each USART, after an action.
pub open spec fn applied(drops: Map<u8, u32>, a: FaultAction) -> Map<u8, u32> {
    match a {
        FaultAction::UartDrop { port, frames } => drops.insert(port, frames),
        FaultAction::UartResume { port } => drops.remove(port),
        _ => drops,
    }
}

/// The frames still to drop for each USART, after a list of actions.
pub open spec fn applied_all(drops: Map<u8, u32>, actions: Seq<FaultAction>) -> Map<u8, u32>
    decreases actions.len(),
{
    if actions.len() == 0 {
        drops
    } else {
        applied(applied_all(drops, actions.drop_last()), actions.last())
    }
}

impl ScriptView {
    /// One flag for each event.
    pub open spec fn wf(self) -> bool {
        self.events.len() == self.fired.len()
    }

    pub open spec fn empty(name: Seq<char>) -> ScriptView {
        ScriptView { name, events: Seq::empty(), fired: Seq::empty() }
    }

    pub open spec fn at(self, at: u64, action: FaultAction) -> ScriptView {
        ScriptView {
            events: self.events.push(FaultEvent { at, action }),
            fired: self.fired.push(false),
            ..self
        }
    }

    pub open spec fn all_fired(self) -> bool {
        self.events.len() > 0 && forall|i: int| 0 <= i < self.fired.len() ==> #[trigger] self.fired[i]
    }

    pub open spec fn rearmed(self) -> ScriptView {
        ScriptView { fired: Seq::new(self.fired.len(), |i: int| false), ..self }
    }

    /// Does event `i` fire now?
    pub open spec fn due(self, i: int, retired: u64) -> bool {
        !self.fired[i] && self.events[i].at <= retired
    }

    /// The actions of the events below `n` that fire now, in the order of the script.
    pub open spec fn due_actions(self, n: int, retired: u64) -> Seq<FaultAction>
        decreases n,
    {
        if n <= 0 {
            Seq::empty()
        } else if self.due(n - 1, retired) {
            self.due_actions(n - 1, retired).push(self.events[n - 1].action)
        } else {
            self.due_actions(n - 1, retired)
        }
    }

    /// The script after a step.
    pub open spec fn stepped(self, retired: u64) -> ScriptView {
        ScriptView {
            fired: Seq::new(self.fired.len(), |i: int| self.fired[i] || self.events[i].at <= retired),
            ..self
        }
    }
}

impl FaultScript {
    pub fn new(name: &str) -> (r: Self)
        ensures
            r@ == ScriptView::empty(name@),
            r@.wf(),
    {
        FaultScript { name: name.to_owned(), events: Vec::new(), fired: Vec::new() }
    }

    /// Adds an event.
    pub fn at(self, at: u64, action: FaultAction) -> (r: Self)
        ensures
            r@ == self@.at(at, action),
            self@.wf() ==> r@.wf(),
    {
        let mut s = self;
        s.events.push(FaultEvent { at, action });
        s.fired.push(false);
        s
    }

    pub fn events(&self) -> (r: &[FaultEvent])
        ensures
            r@ == self@.events,
    {
        self.events.as_slice()
    }

    /// How many events have fired.
    pub fn fired_count(&self) -> (r: usize)
        ensures
            r == count_of(self@.fired),
    {
        let n = self.fired.len();
        let mut count: usize = 0;
        let mut i: usize = 0;
        assert(self.fired@.take(0) =~= Seq::<bool>::empty());
        while i < n
            invariant
                i <= n,
                n == self.fired@.len(),
                count <= i,
                count == count_of(self.fired@.take(i as int)),
            decreases n - i,
        {
            assert(self.fired@.take(i + 1).drop_last() =~= self.fired@.take(i as int));
            if self.fired[i] {
                count = count + 1;
            }
            i = i + 1;
        }
        assert(self.fired@.take(n as int) =~= self.fired@);
        count
    }

    /// Has every event fired? A script without events never has.
    pub fn all_fired(&self) -> (r: bool)
        ensures
            r == self@.all_fired(),
    {
        let mut i: usize = 0;
        while i < self.fired.len()
            invariant
                i <= self.fired@.len(),
                forall|k: int| 0 <= k < i ==> #[trigger] self@.fired[k],
            decreases self.fired@.len() - i,
        {
            if !self.fired[i] {
                assert(!self@.fired[i as int]);
                return false;
            }
            i = i + 1;
        }
        self.events.len() > 0
    }

    /// Lets the script run again from the start.
    pub fn rearm(&mut self)
        ensures
            final(self)@ == old(self)@.rearmed(),
    {
        let n = self.fired.len();
        let mut i: usize = 0;
        while i < n
            invariant
                i <= n,
                n == self.fired@.len(),
                self.name == old(self).name,
                self.events == old(self).events,
                self.fired@.len() == old(self).fired@.len(),
                forall|k: int| 0 <= k < i ==> !#[trigger] self.fired@[k],
            decreases n - i,
        {
            self.fired.set(i, false);
            i = i + 1;
        }
        assert(self@ =~= old(self)@.rearmed());
    }
}

/// Fires the events that are due and keeps the book of dropped frames. The answer lists the
/// actions, in the order of the script.
pub fn step_script(
    script: &mut FaultScript,
    retired: u64,
    uart_drop: &mut HashMap<u8, u32>,
) -> (r: Vec<FaultAction>)
    requires
        old(script)@.wf(),
    ensures
        final(script)@ == old(script)@.stepped(retired),
        r@ == old(script)@.due_actions(old(script)@.events.len() as int, retired),
        final(uart_drop)@ == applied_all(old(uart_drop)@, r@),
{
    let ghost s0 = script@;
    let ghost d0 = uart_drop@;
    let n = script.events.len();
    let mut out: Vec<FaultAction> = Vec::new();
    let mut i: usize = 0;
    while i < n
        invariant
            i <= n,
            n == s0.events.len(),
            n == s0.fired.len(),
            script@.name == s0.name,
            script@.events == s0.events,
            script.fired@.len() == n,
            forall|k: int|
                0 <= k < i ==> #[trigger] script.fired@[k] == (s0.fired[k] || s0.events[k].at
                    <= retired),
            forall|k: int| i <= k < n ==> #[trigger] script.fired@[k] == s0.fired[k],
            out@ == s0.due_actions(i as int, retired),
            uart_drop@ == applied_all(d0, out@),
        decreases n - i,
    {
        assert(script.events@ == s0.events);
        if !script.fired[i] && script.events[i].at <= retired {
            script.fired.set(i, true);
            let action = script.events[i].action.duplicate();
            match &action {
                FaultAction::UartDrop { port, frames } => {
                    uart_drop.insert(*port, *frames);
                },
                FaultAction::UartResume { port } => {
                    uart_drop.remove(port);
                },
                _ => {},
            }
            let ghost before = out@;
            out.push(action);
            assert(out@.drop_last() =~= before);
        }
        i = i + 1;
    }
    assert(script@ =~= s0.stepped(retired));
    out
}

/// An event fires at the first step at or after its time and never again, until the script is
/// rearmed: exactly the events that were due have fired after a step, and a second step up to
/// the same time lists no action, changes nothing in the script and drops no other frames.
pub proof fn law_events_fire_once(
    s: ScriptView,
    retired: u64,
    later: u64,
    drops: Map<u8, u32>,
)
    requires
        s.wf(),
        later <= retired,
    ensures
        forall|i: int|
            0 <= i < s.events.len() ==> (s.stepped(retired).fired[i] <==> s.fired[i]
                || #[trigger] s.due(i, retired)),
        ({
            let again = s.stepped(retired).due_actions(s.events.len() as int, later);
            &&& again == Seq::<FaultAction>::empty()
            &&& applied_all(drops, again) == drops
        }),
        s.stepped(retired).stepped(later) == s.stepped(retired),
{
    lemma_nothing_left(s, retired, later, s.events.len() as int);
    assert(s.stepped(retired).stepped(later) =~= s.stepped(retired));
}

proof fn lemma_nothing_left(s: ScriptView, retired: u64, later: u64, n: int)
    requires
        s.wf(),
        later <= retired,
        0 <= n <= s.events.len(),
    ensures
        s.stepped(retired).due_actions(n, later) == Seq::<FaultAction>::empty(),
    decreases n,
{
    if n > 0 {
        lemma_nothing_left(s, retired, later, n - 1);
    }
}

/// Steps at two times fire the same events as one step at the later time.
pub proof fn law_steps_add_up(s: ScriptView, a: u64, b: u64)
    requires
        s.wf(),
        a <= b,
    ensures
        s.stepped(a).stepped(b) == s.stepped(b),
        forall|i: int|
            0 <= i < s.events.len() ==> (#[trigger] s.due(i, b) <==> s.due(i, a) || s.stepped(
                a,
            ).due(i, b)),
{
    assert(s.stepped(a).stepped(b) =~= s.stepped(b));
}

/// A rearmed script has not fired at all.
pub proof fn law_rearm(s: ScriptView)
    requires
        s.wf(),
    ensures
        count_of(s.rearmed().fired) == 0,
        !s.rearmed().all_fired(),
{
    lemma_none_counted(s.rearmed().fired);
    if s.events.len() > 0 {
        assert(!s.rearmed().fired[0]);
    }
}

proof fn lemma_none_counted(f: Seq<bool>)
    requires
        forall|i: int| 0 <= i < f.len() ==> !#[trigger] f[i],
    ensures
        count_of(f) == 0,
    decreases f.len(),
{
    if f.len() > 0 {
        lemma_none_counted(f.drop_last());
        assert(!f[f.len() - 1]);
    }
}

/// An event that is added at the end of a script comes after the others: at a step it adds its
/// action to theirs if its time has come, and nothing otherwise.
pub proof fn law_actions_in_order(s: ScriptView, at: u64, action: FaultAction, retired: u64)
    requires
        s.wf(),
    ensures
        ({
            let t = s.at(at, action);
            let n = s.events.len() as int;
            t.due_actions(n + 1, retired) == if at <= retired {
                s.due_actions(n, retired).push(action)
            } else {
                s.due_actions(n, retired)
            }
        }),
        s.rearmed().events == s.events,
        s.stepped(retired).events == s.events,
{
    lemma_same_actions(s, s.at(at, action), s.events.len() as int, retired);
}

proof fn lemma_same_actions(s: ScriptView, t: ScriptView, n: int, retired: u64)
    requires
        s.wf() && t.wf(),
        0 <= n <= s.events.len() <= t.events.len(),
        forall|i: int| 0 <= i < n ==> (#[trigger] s.events[i]) == t.events[i],
        forall|i: int| 0 <= i < n ==> (#[trigger] s.fired[i]) == t.fired[i],
    ensures
        s.due_actions(n, retired) == t.due_actions(n, retired),
    decreases n,
{
    if n > 0 {
        lemma_same_actions(s, t, n - 1, retired);
        assert(s.events[n - 1] == t.events[n - 1] && s.fired[n - 1] == t.fired[n - 1]);
    }
}

/// The book of dropped frames: a drop enters its number for the port, a resumption strikes the
/// port out, and nothing else is entered. Of several actions the later ones overrule.
pub proof fn law_book_of_drops(
    drops: Map<u8, u32>,
    actions: Seq<FaultAction>,
    port: u8,
    frames: u32,
    other: u8,
)
    ensures
        ({
            let before = applied_all(drops, actions);
            let dropped = applied_all(drops, actions.push(FaultAction::UartDrop { port, frames }));
            let resumed = applied_all(drops, actions.push(FaultAction::UartResume { port }));
            &&& dropped.dom().contains(port) && dropped[port] == frames
            &&& !resumed.dom().contains(port)
            &&& other != port ==> (dropped.dom().contains(other) <==> before.dom().contains(other))
                && (resumed.dom().contains(other) <==> before.dom().contains(other))
            &&& other != port && before.dom().contains(other) ==> dropped[other] == before[other]
                && resumed[other] == before[other]
        }),
        forall|a: FaultAction|
            !(a is UartDrop) && !(a is UartResume) ==> #[trigger] applied(drops, a) == drops,
        applied_all(drops, Seq::empty()) == drops,
{
    let d = FaultAction::UartDrop { port, frames };
    let r = FaultAction::UartResume { port };
    assert(actions.push(d).drop_last() =~= actions && actions.push(d).last() == d);
    assert(actions.push(r).drop_last() =~= actions && actions.push(r).last() == r);
}

/// All have fired just if there are events and as many have fired as there are.
pub proof fn law_fired_count(s: ScriptView)
    requires
        s.wf(),
    ensures
        0 <= count_of(s.fired) <= s.events.len(),
        s.all_fired() <==> s.events.len() > 0 && count_of(s.fired) == s.events.len(),
{
    lemma_counted(s.fired);
}

proof fn lemma_counted(f: Seq<bool>)
    ensures
        0 <= count_of(f) <= f.len(),
        count_of(f) == f.len() <==> (forall|i: int| 0 <= i < f.len() ==> #[trigger] f[i]),
    decreases f.len(),
{
    if f.len() > 0 {
        let g = f.drop_last();
        lemma_counted(g);
        if forall|i: int| 0 <= i < f.len() ==> #[trigger] f[i] {
            assert forall|i: int| 0 <= i < g.len() implies #[trigger] g[i] by {
                assert(f[i]);
            }
            assert(f[f.len() - 1]);
        }
        if count_of(f) == f.len() {
            assert forall|i: int| 0 <= i < f.len() implies #[trigger] f[i] by {
                if i < g.len() {
                    assert(g[i]);
                }
            }
        }
    }
}

} // verus!
