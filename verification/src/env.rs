//! What goes wrong with the sensors of a flight, and when.
//!
//! A flight model makes the readings; this module decides which of them get through. Every
//! event strikes once, at the first step at or after its time. Times are microseconds.
use vstd::prelude::*;

verus! {

/// The number of remote control channels.
pub const CHANNELS: usize = 16;

/// The middle position of a channel.
pub const NEUTRAL: i32 = 1500;

/// The throttle channel.
pub const THROTTLE: usize = 3;

/// Where the throttle stands, before it is trimmed.
pub const THROTTLE_REST: i32 = 1550;

/// What happens to a sensor. The size of a disturbance is a matter of the flight model: it is
/// found by the number of the event.
#[derive(Debug, Clone, Copy, PartialEq, Eq, Structural)]
pub enum SensorFault {
    /// The inertial sensor repeats its last reading.
    ImuFreeze,
    /// The inertial sensor is limited to a range.
    ImuSaturate,
    /// The altitude of the barometer jumps.
    BaroStep,
    /// The barometer repeats its last reading.
    BaroFreeze,
    /// The satellite receiver has no fix for a while.
    GpsDrop { dur: u64 },
    /// The position of the satellite receiver jumps.
    GpsJump,
    /// The remote control is lost for a while.
    RcDrop { dur: u64 },
    /// A channel of the remote control is stuck for a while.
    RcStuck { ch: usize, raw: i32, dur: u64 },
    /// The magnetometer repeats its last reading.
    MagFreeze,
    /// A field is added to the magnetometer.
    MagDisturb,
}

/// A fault and its time.
#[derive(Debug, Clone, Copy, PartialEq, Eq, Structural)]
pub struct SensorEvent {
    pub at: u64,
    pub fault: SensorFault,
}

/// A channel that is stuck.
#[derive(Debug, Clone, Copy, PartialEq, Eq, Structural)]
pub struct Stuck {
    pub ch: usize,
    pub raw: i32,
    pub until: u64,
}

/// The condition of the sensors.
#[derive(Debug, Clone, Copy, PartialEq, Eq, Structural)]
pub struct Condition {
    pub imu_frozen: bool,
    /// The event that limits the inertial sensor.
    pub imu_sat: Option<usize>,
    pub baro_stepped: bool,
    pub baro_frozen: bool,
    pub gps_drop_until: u64,
    pub gps_jumped: bool,
    pub rc_drop_until: u64,
    pub mag_frozen: bool,
    /// The event that disturbs the magnetometer.
    pub mag_disturb: Option<usize>,
}

/// The faults of a flight.
#[derive(Debug)]
pub struct SensorPlan {
    events: Vec<SensorEvent>,
    fired: Vec<bool>,
    now: u64,
    condition: Condition,
    stuck: Vec<Stuck>,
}

/// The state of the faults.
#[verifier::ext_equal]
pub struct PlanView {
    pub events: Seq<SensorEvent>,
    pub fired: Seq<bool>,
    pub now: u64,
    pub condition: Condition,
    pub stuck: Seq<Stuck>,
}

impl View for SensorPlan {
    type V = PlanView;

    closed spec fn view(&self) -> PlanView {
        PlanView {
            events: self.events@,
            fired: self.fired@,
            now: self.now,
            condition: self.condition,
            stuck: self.stuck@,
        }
    }
}

impl Condition {
    /// All is well.
    pub open spec fn sound() -> Condition {
        Condition {
            imu_frozen: false,
            imu_sat: None,
            baro_stepped: false,
            baro_frozen: false,
            gps_drop_until: 0,
            gps_jumped: false,
            rc_drop_until: 0,
            mag_frozen: false,
            mag_disturb: None,
        }
    }

    /// A fault strikes at a time; `i` is the number of the event.
    pub open spec fn struck(self, f: SensorFault, i: int, now: u64) -> Condition {
        match f {
            SensorFault::ImuFreeze => Condition { imu_frozen: true, ..self },
            SensorFault::ImuSaturate => Condition { imu_sat: Some(i as usize), ..self },
            SensorFault::BaroStep => Condition { baro_stepped: true, ..self },
            SensorFault::BaroFreeze => Condition { baro_frozen: true, ..self },
            SensorFault::GpsDrop { dur } => Condition {
                gps_drop_until: (now + dur) as u64,
                ..self
            },
            SensorFault::GpsJump => Condition { gps_jumped: true, ..self },
            SensorFault::RcDrop { dur } => Condition { rc_drop_until: (now + dur) as u64, ..self },
            SensorFault::RcStuck { .. } => self,
            SensorFault::MagFreeze => Condition { mag_frozen: true, ..self },
            SensorFault::MagDisturb => Condition { mag_disturb: Some(i as usize), ..self },
        }
    }
}

/// How long a fault lasts.
pub open spec fn duration(f: SensorFault) -> u64 {
    match f {
        SensorFault::GpsDrop { dur } => dur,
        SensorFault::RcDrop { dur } => dur,
        SensorFault::RcStuck { dur, .. } => dur,
        _ => 0,
    }
}

/// Is the channel, if the fault names one, there?
pub open spec fn in_range(f: SensorFault) -> bool {
    f matches SensorFault::RcStuck { ch, .. } ==> ch < CHANNELS
}

/// The number of the first event of a kind, from number `i` on.
pub open spec fn first_step(events: Seq<SensorEvent>, i: int) -> Option<usize>
    decreases events.len() - i,
{
    if i >= events.len() {
        None
    } else if events[i].fault is BaroStep {
        Some(i as usize)
    } else {
        first_step(events, i + 1)
    }
}

/// The number of the first jump of the position, from number `i` on.
pub open spec fn first_jump(events: Seq<SensorEvent>, i: int) -> Option<usize>
    decreases events.len() - i,
{
    if i >= events.len() {
        None
    } else if events[i].fault is GpsJump {
        Some(i as usize)
    } else {
        first_jump(events, i + 1)
    }
}

/// The channels with the first `n` stuck ones where they are stuck at a time.
pub open spec fn with_stuck(ch: Seq<i32>, stuck: Seq<Stuck>, n: int, now: u64) -> Seq<i32>
    decreases n,
{
    if n <= 0 {
        ch
    } else {
        let c = with_stuck(ch, stuck, n - 1, now);
        let s = stuck[n - 1];
        if now < s.until {
            c.update(s.ch as int, s.raw)
        } else {
            c
        }
    }
}

/// The channels at rest, with the throttle trimmed.
pub open spec fn at_rest(trim: i32) -> Seq<i32> {
    Seq::new(CHANNELS as nat, |i: int| NEUTRAL).update(
        THROTTLE as int,
        (THROTTLE_REST + trim) as i32,
    )
}

impl PlanView {
    /// The flags fit the events, the channels are there, and no time is beyond counting.
    pub open spec fn wf(self) -> bool {
        &&& self.events.len() == self.fired.len()
        &&& self.events.len() <= usize::MAX
        &&& forall|i: int| 0 <= i < self.events.len() ==> in_range(#[trigger] self.events[i].fault)
        &&& forall|i: int| 0 <= i < self.stuck.len() ==> (#[trigger] self.stuck[i]).ch < CHANNELS
    }

    /// Is there room on the clock for a step and whatever may strike in it?
    pub open spec fn has_room(self, dt: u64) -> bool {
        &&& self.now + dt <= u64::MAX
        &&& forall|i: int|
            0 <= i < self.events.len() ==> self.now + dt + duration(
                #[trigger] self.events[i].fault,
            ) <= u64::MAX
    }

    pub open spec fn fresh(events: Seq<SensorEvent>) -> PlanView {
        PlanView {
            events,
            fired: Seq::new(events.len(), |i: int| false),
            now: 0,
            condition: Condition::sound(),
            stuck: Seq::empty(),
        }
    }

    /// Event `i` strikes, if it is due and has not yet.
    pub open spec fn struck(self, i: int) -> PlanView {
        let e = self.events[i];
        if self.fired[i] || self.now < e.at {
            self
        } else {
            PlanView {
                fired: self.fired.update(i, true),
                condition: self.condition.struck(e.fault, i, self.now),
                stuck: match e.fault {
                    SensorFault::RcStuck { ch, raw, dur } => self.stuck.push(
                        Stuck { ch, raw, until: (self.now + dur) as u64 },
                    ),
                    _ => self.stuck,
                },
                ..self
            }
        }
    }

    /// The first `n` events strike, in order, as far as they are due.
    pub open spec fn struck_by(self, n: int) -> PlanView
        decreases n,
    {
        if n <= 0 {
            self
        } else {
            self.struck_by(n - 1).struck(n - 1)
        }
    }

    /// Time goes on.
    pub open spec fn advanced(self, dt: u64) -> PlanView {
        PlanView { now: (self.now + dt) as u64, ..self }.struck_by(self.events.len() as int)
    }

    /// Has the satellite receiver a fix?
    pub open spec fn has_fix(self) -> bool {
        self.now >= self.condition.gps_drop_until
    }

    /// The event by which the altitude has jumped, if it has.
    pub open spec fn altitude_step(self) -> Option<usize> {
        if self.condition.baro_stepped {
            first_step(self.events, 0)
        } else {
            None
        }
    }

    /// The event by which the position has jumped, if it has.
    pub open spec fn position_jump(self) -> Option<usize> {
        if self.condition.gps_jumped {
            first_jump(self.events, 0)
        } else {
            None
        }
    }

    /// The channels of the remote control: while it is lost all of them are in the middle,
    /// whatever is stuck.
    pub open spec fn channels(self, trim: i32) -> Seq<i32> {
        if self.now < self.condition.rc_drop_until {
            Seq::new(CHANNELS as nat, |i: int| NEUTRAL)
        } else {
            with_stuck(at_rest(trim), self.stuck, self.stuck.len() as int, self.now)
        }
    }
}

proof fn lemma_struck_by(p: PlanView, n: int)
    requires
        p.wf(),
        n <= p.events.len(),
    ensures
        p.struck_by(n).wf(),
        p.struck_by(n).events == p.events,
        p.struck_by(n).now == p.now,
    decreases n,
{
    if n > 0 {
        lemma_struck_by(p, n - 1);
        let q = p.struck_by(n - 1);
        assert(in_range(q.events[n - 1].fault));
    }
}

impl SensorPlan {
    /// A flight with these faults ahead of it.
    pub fn new(events: Vec<SensorEvent>) -> (r: Self)
        requires
            forall|i: int| 0 <= i < events@.len() ==> in_range(#[trigger] events@[i].fault),
        ensures
            r@ == PlanView::fresh(events@),
            r@.wf(),
    {
        let n = events.len();
        let mut fired: Vec<bool> = Vec::new();
        while fired.len() < n
            invariant
                fired@.len() <= n,
                forall|i: int| 0 <= i < fired@.len() ==> !#[trigger] fired@[i],
            decreases n - fired@.len(),
        {
            fired.push(false);
        }
        let r = SensorPlan {
            events,
            fired,
            now: 0,
            condition: Condition {
                imu_frozen: false,
                imu_sat: None,
                baro_stepped: false,
                baro_frozen: false,
                gps_drop_until: 0,
                gps_jumped: false,
                rc_drop_until: 0,
                mag_frozen: false,
                mag_disturb: None,
            },
            stuck: Vec::new(),
        };
        assert(r@ =~= PlanView::fresh(events@));
        r
    }

    /// The time.
    pub fn time(&self) -> (r: u64)
        ensures
            r == self@.now,
    {
        self.now
    }

    /// The condition of the sensors.
    pub fn condition(&self) -> (r: Condition)
        ensures
            r == self@.condition,
    {
        self.condition
    }

    /// Is there room on the clock for a step?
    pub fn has_room(&self, dt: u64) -> (r: bool)
        ensures
            r == self@.has_room(dt),
    {
        if self.now > u64::MAX - dt {
            return false;
        }
        let then = self.now + dt;
        let mut i: usize = 0;
        while i < self.events.len()
            invariant
                i <= self.events@.len(),
                then == self@.now + dt,
                forall|k: int|
                    0 <= k < i ==> then + duration(#[trigger] self@.events[k].fault) <= u64::MAX,
            decreases self.events@.len() - i,
        {
            let dur = match self.events[i].fault {
                SensorFault::GpsDrop { dur } => dur,
                SensorFault::RcDrop { dur } => dur,
                SensorFault::RcStuck { dur, .. } => dur,
                _ => 0,
            };
            assert(dur == duration(self@.events[i as int].fault));
            if then > u64::MAX - dur {
                return false;
            }
            i = i + 1;
        }
        true
    }

    fn strike(&mut self, i: usize)
        requires
            old(self)@.wf(),
            i < old(self)@.events.len(),
            old(self)@.now + duration(old(self)@.events[i as int].fault) <= u64::MAX,
        ensures
            final(self)@ == old(self)@.struck(i as int),
    {
        let e = self.events[i];
        if self.fired[i] || self.now < e.at {
            return ;
        }
        self.fired.set(i, true);
        match e.fault {
            SensorFault::ImuFreeze => {
                self.condition.imu_frozen = true;
            },
            SensorFault::ImuSaturate => {
                self.condition.imu_sat = Some(i);
            },
            SensorFault::BaroStep => {
                self.condition.baro_stepped = true;
            },
            SensorFault::BaroFreeze => {
                self.condition.baro_frozen = true;
            },
            SensorFault::GpsDrop { dur } => {
                self.condition.gps_drop_until = self.now + dur;
            },
            SensorFault::GpsJump => {
                self.condition.gps_jumped = true;
            },
            SensorFault::RcDrop { dur } => {
                self.condition.rc_drop_until = self.now + dur;
            },
            SensorFault::RcStuck { ch, raw, dur } => {
                self.stuck.push(Stuck { ch, raw, until: self.now + dur });
            },
            SensorFault::MagFreeze => {
                self.condition.mag_frozen = true;
            },
            SensorFault::MagDisturb => {
                self.condition.mag_disturb = Some(i);
            },
        }
    }

    /// Lets time go on; what is due strikes.
    pub fn advance(&mut self, dt: u64)
        requires
            old(self)@.wf(),
            old(self)@.has_room(dt),
        ensures
            final(self)@ == old(self)@.advanced(dt),
            final(self)@.wf(),
    {
        let ghost v0 = self@;
        self.now = self.now + dt;
        let ghost v1 = self@;
        assert(v1 =~= PlanView { now: (v0.now + dt) as u64, ..v0 });
        let n = self.events.len();
        let mut i: usize = 0;
        while i < n
            invariant
                i <= n,
                n == v1.events.len(),
                v1.wf(),
                v0.has_room(dt),
                v1.events == v0.events,
                v1.now == v0.now + dt,
                self@ == v1.struck_by(i as int),
            decreases n - i,
        {
            proof {
                lemma_struck_by(v1, i as int);
                assert(v0.now + dt + duration(v0.events[i as int].fault) <= u64::MAX);
            }
            self.strike(i);
            i = i + 1;
        }
        proof {
            lemma_struck_by(v1, n as int);
        }
    }

    /// Has the satellite receiver a fix?
    pub fn gps_fix(&self) -> (r: bool)
        ensures
            r == self@.has_fix(),
    {
        self.now >= self.condition.gps_drop_until
    }

    /// The event by which the altitude of the barometer has jumped, if it has.
    pub fn baro_step(&self) -> (r: Option<usize>)
        requires
            self@.wf(),
        ensures
            r == self@.altitude_step(),
    {
        if !self.condition.baro_stepped {
            return None;
        }
        let mut i: usize = 0;
        while i < self.events.len()
            invariant
                i <= self.events@.len(),
                first_step(self@.events, 0) == first_step(self@.events, i as int),
                self@.condition.baro_stepped,
            decreases self.events@.len() - i,
        {
            if let SensorFault::BaroStep = self.events[i].fault {
                return Some(i);
            }
            i = i + 1;
        }
        None
    }

    /// The event by which the position of the satellite receiver has jumped, if it has.
    pub fn gps_jump(&self) -> (r: Option<usize>)
        requires
            self@.wf(),
        ensures
            r == self@.position_jump(),
    {
        if !self.condition.gps_jumped {
            return None;
        }
        let mut i: usize = 0;
        while i < self.events.len()
            invariant
                i <= self.events@.len(),
                first_jump(self@.events, 0) == first_jump(self@.events, i as int),
                self@.condition.gps_jumped,
            decreases self.events@.len() - i,
        {
            if let SensorFault::GpsJump = self.events[i].fault {
                return Some(i);
            }
            i = i + 1;
        }
        None
    }

    /// The channels of the remote control, with the throttle trimmed.
    pub fn rc_channels(&self, trim: i32) -> (r: [i32; 16])
        requires
            self@.wf(),
            i32::MIN <= THROTTLE_REST + trim <= i32::MAX,
        ensures
            r@ == self@.channels(trim),
    {
        let mut ch: [i32; 16] = [NEUTRAL;16];
        if self.now < self.condition.rc_drop_until {
            assert(ch@ =~= self@.channels(trim));
            return ch;
        }
        ch[3] = THROTTLE_REST + trim;
        assert(ch@ =~= at_rest(trim));
        let mut i: usize = 0;
        while i < self.stuck.len()
            invariant
                i <= self.stuck@.len(),
                self@.wf(),
                ch@ == with_stuck(at_rest(trim), self@.stuck, i as int, self@.now),
            decreases self.stuck@.len() - i,
        {
            let s = self.stuck[i];
            assert(s == self@.stuck[i as int]);
            if self.now < s.until {
                ch[s.ch] = s.raw;
            }
            i = i + 1;
        }
        ch
    }
}

proof fn lemma_fired_stays(p: PlanView, n: int, i: int)
    requires
        p.wf(),
        0 <= n <= p.events.len(),
        0 <= i < p.events.len(),
    ensures
        p.fired[i] ==> p.struck_by(n).fired[i],
        p.struck_by(n).fired[i] && !p.fired[i] ==> i < n && p.events[i].at <= p.now,
        i < n && p.events[i].at <= p.now ==> p.struck_by(n).fired[i],
        p.condition.imu_frozen ==> p.struck_by(n).condition.imu_frozen,
        p.condition.baro_frozen ==> p.struck_by(n).condition.baro_frozen,
        p.condition.mag_frozen ==> p.struck_by(n).condition.mag_frozen,
    decreases n,
{
    if n > 0 {
        lemma_fired_stays(p, n - 1, i);
        lemma_struck_by(p, n - 1);
    }
}

/// After a step every event whose time has come has struck, and no other has; and what has
/// frozen stays frozen.
pub proof fn law_events_strike_when_due(p: PlanView, dt: u64, i: int)
    requires
        p.wf(),
        p.has_room(dt),
        0 <= i < p.events.len(),
    ensures
        p.advanced(dt).fired[i] == (p.fired[i] || p.events[i].at <= p.now + dt),
        p.condition.imu_frozen ==> p.advanced(dt).condition.imu_frozen,
        p.condition.baro_frozen ==> p.advanced(dt).condition.baro_frozen,
        p.condition.mag_frozen ==> p.advanced(dt).condition.mag_frozen,
{
    lemma_fired_stays(
        PlanView { now: (p.now + dt) as u64, ..p },
        p.events.len() as int,
        i,
    );
}

proof fn lemma_quiet(p: PlanView, n: int)
    requires
        p.wf(),
        0 <= n <= p.events.len(),
        forall|i: int| 0 <= i < p.events.len() ==> #[trigger] p.fired[i],
    ensures
        p.struck_by(n) == p,
    decreases n,
{
    if n > 0 {
        lemma_quiet(p, n - 1);
        assert(p.fired[n - 1]);
    }
}

/// Once all events have struck, time alone changes: an event never strikes twice.
pub proof fn law_events_strike_once(p: PlanView, dt: u64)
    requires
        p.wf(),
        p.has_room(dt),
        forall|i: int| 0 <= i < p.events.len() ==> #[trigger] p.fired[i],
    ensures
        p.advanced(dt) == (PlanView { now: (p.now + dt) as u64, ..p }),
{
    lemma_quiet(PlanView { now: (p.now + dt) as u64, ..p }, p.events.len() as int);
}

/// A lost remote control disarms, whatever is stuck: all channels are in the middle.
pub proof fn law_loss_overrules_stuck(p: PlanView, trim: i32, ch: int)
    requires
        p.now < p.condition.rc_drop_until,
        0 <= ch < CHANNELS,
    ensures
        p.channels(trim)[ch] == NEUTRAL,
{
}

/// A source of noise: the xorshift generator.
#[derive(Debug, Clone, Copy, PartialEq, Eq, Structural)]
pub struct Noise {
    pub state: u64,
}

/// The next state of the generator.
pub open spec fn shuffled(x: u64) -> u64 {
    let a = x ^ (x << 13u64);
    let b = a ^ (a >> 7u64);
    b ^ (b << 17u64)
}

impl Noise {
    pub fn new() -> (r: Self)
        ensures
            r.state == 0x9e37_79b9_7f4a_7c15,
    {
        Noise { state: 0x9e37_79b9_7f4a_7c15 }
    }

    /// The next 24 random bits.
    pub fn next_bits(&mut self) -> (r: u64)
        ensures
            final(self).state == shuffled(old(self).state),
            r == shuffled(old(self).state) >> 40u64,
            r < 0x100_0000,
    {
        let x = self.state;
        let a = x ^ (x << 13u64);
        let b = a ^ (a >> 7u64);
        let c = b ^ (b << 17u64);
        self.state = c;
        assert(c >> 40u64 < 0x100_0000) by (bit_vector);
        c >> 40u64
    }
}

/// The generator never gets stuck: from a state other than 0 it never comes to 0.
pub proof fn law_noise_goes_on(x: u64)
    requires
        x != 0,
    ensures
        shuffled(x) != 0,
{
    assert(x != 0 ==> {
        let a = x ^ (x << 13u64);
        let b = a ^ (a >> 7u64);
        b ^ (b << 17u64) != 0
    }) by (bit_vector);
}

/// A fault strikes one thing and leaves the rest alone. What is lost for a while is back after
/// just that while, counted from the step in which it was lost.
pub proof fn law_what_a_fault_does(p: PlanView, i: int, later: u64)
    requires
        p.wf(),
        0 <= i < p.events.len(),
        !p.fired[i],
        p.events[i].at <= p.now,
        p.now + duration(p.events[i].fault) <= u64::MAX,
    ensures
        ({
            let q = p.struck(i);
            let then = PlanView { now: later, ..q };
            let c = p.condition;
            &&& q.fired[i] && q.now == p.now && q.events == p.events
            &&& forall|k: int|
                0 <= k < p.events.len() && k != i ==> #[trigger] q.fired[k] == p.fired[k]
            &&& match p.events[i].fault {
                SensorFault::ImuFreeze => q.condition.imu_frozen && q.condition == (Condition {
                    imu_frozen: true,
                    ..c
                }),
                SensorFault::ImuSaturate => q.condition.imu_sat == Some(i as usize) && q.condition
                    == (Condition { imu_sat: Some(i as usize), ..c }),
                SensorFault::BaroStep => q.condition == (Condition { baro_stepped: true, ..c }),
                SensorFault::BaroFreeze => q.condition == (Condition { baro_frozen: true, ..c }),
                SensorFault::GpsDrop { dur } => {
                    &&& then.has_fix() <==> later >= p.now + dur
                    &&& q.condition == (Condition {
                        gps_drop_until: q.condition.gps_drop_until,
                        ..c
                    })
                },
                SensorFault::GpsJump => q.condition == (Condition { gps_jumped: true, ..c }),
                SensorFault::RcDrop { dur } => {
                    &&& later < p.now + dur ==> forall|trim: i32, ch: int|
                        0 <= ch < 16 ==> #[trigger] then.channels(trim)[ch] == 1500
                    &&& later >= p.now + dur ==> forall|trim: i32|
                        #[trigger] then.channels(trim) == with_stuck(
                            at_rest(trim),
                            p.stuck,
                            p.stuck.len() as int,
                            later,
                        )
                    &&& q.condition == (Condition { rc_drop_until: q.condition.rc_drop_until, ..c })
                },
                SensorFault::RcStuck { ch, raw, dur } => q.condition == c && q.stuck.len()
                    == p.stuck.len() + 1 && q.stuck.drop_last() == p.stuck && q.stuck.last().ch == ch
                    && q.stuck.last().raw == raw && q.stuck.last().until == p.now + dur,
                SensorFault::MagFreeze => q.condition == (Condition { mag_frozen: true, ..c }),
                SensorFault::MagDisturb => q.condition == (Condition {
                    mag_disturb: Some(i as usize),
                    ..c
                }),
            }
            &&& !(p.events[i].fault is RcStuck) ==> q.stuck == p.stuck
        }),
{
    let q = p.struck(i);
    assert(q.fired.len() == p.fired.len());
    if p.events[i].fault is RcStuck {
        assert(q.stuck.drop_last() =~= p.stuck);
    }
}

/// At rest all channels are in the middle but the throttle, which is a little above it and can be
/// trimmed. A stuck channel is where it is stuck, by the latest fault that still lasts, and the
/// other channels are not touched.
pub proof fn law_channels(trim: i32, stuck: Seq<Stuck>, n: int, now: u64, ch: int)
    requires
        0 <= n <= stuck.len(),
        forall|i: int| 0 <= i < stuck.len() ==> (#[trigger] stuck[i]).ch < 16,
        0 <= ch < 16,
        i32::MIN <= 1550 + trim <= i32::MAX,
    ensures
        at_rest(trim).len() == 16,
        at_rest(trim)[ch] == if ch == 3 {
            1550 + trim
        } else {
            1500
        },
        with_stuck(at_rest(trim), stuck, n, now).len() == 16,
        n > 0 && stuck[n - 1].ch == ch && now < stuck[n - 1].until ==> with_stuck(
            at_rest(trim),
            stuck,
            n,
            now,
        )[ch] == stuck[n - 1].raw,
        n > 0 && (stuck[n - 1].ch != ch || now >= stuck[n - 1].until) ==> with_stuck(
            at_rest(trim),
            stuck,
            n,
            now,
        )[ch] == with_stuck(at_rest(trim), stuck, n - 1, now)[ch],
        (forall|i: int| 0 <= i < n ==> (#[trigger] stuck[i]).ch != ch || now >= stuck[i].until)
            ==> with_stuck(at_rest(trim), stuck, n, now)[ch] == at_rest(trim)[ch],
    decreases n,
{
    if n > 0 {
        law_channels(trim, stuck, n - 1, now, ch);
        assert(stuck[n - 1].ch < 16);
    }
}

/// The generator multiplies, divides and multiplies again, each time by a power of two, and mixes
/// the result in.
pub proof fn law_noise_steps(x: u64)
    ensures
        ({
            let a = x ^ (((x * 0x2000) % 0x1_0000_0000_0000_0000) as u64);
            let b = a ^ (a / 0x80);
            shuffled(x) == b ^ (((b * 0x2_0000) % 0x1_0000_0000_0000_0000) as u64)
        }),
{
    let a = x ^ (x << 13u64);
    let b = a ^ (a >> 7u64);
    assert(x << 13u64 == (x * 0x2000) % 0x1_0000_0000_0000_0000 && a >> 7u64 == a / 0x80 && b
        << 17u64 == (b * 0x2_0000) % 0x1_0000_0000_0000_0000) by (bit_vector);
}

/// A jump of the altitude, or of the position, is that of the first event of its kind.
pub proof fn law_first_of_its_kind(events: Seq<SensorEvent>, from: int, i: int)
    requires
        0 <= from <= i < events.len(),
        events.len() <= usize::MAX,
    ensures
        events[i].fault is BaroStep && (forall|k: int|
            from <= k < i ==> !((#[trigger] events[k]).fault is BaroStep)) ==> first_step(
            events,
            from,
        ) == Some(i as usize),
        events[i].fault is GpsJump && (forall|k: int|
            from <= k < i ==> !((#[trigger] events[k]).fault is GpsJump)) ==> first_jump(
            events,
            from,
        ) == Some(i as usize),
    decreases i - from,
{
    if from < i {
        law_first_of_its_kind(events, from + 1, i);
    }
}

} // verus!
