//! The real-time clock with its backup registers.
//!
//! The calendar counts seconds from 2000-01-01. Two prescalers divide the clock to one tick a
//! second: a cycle handed to `tick` is a cycle of the undivided clock. Time and date registers
//! show the count in BCD. Two alarms raise interrupt 41, the wake-up timer interrupt 3.
//!
//! Writing 0xCA and then 0x53 to WPR unlocks the protected registers; a wrong byte locks them.
//! Time, date and prescalers can be written in initialisation mode only, and the calendar
//! stands still there. The twenty backup registers survive a reset; writing them needs the
//! power controller's permission.
use crate::bits;
use crate::peripheral::calendar;
use crate::peripheral::{BusError, Peripheral};
use crate::wires::{Wires, WiresView};
use vstd::prelude::*;

verus! {

pub const RTC_ALARM_IRQ: u32 = 41;

pub const RTC_WKUP_IRQ: u32 = 3;

pub const OFF_TR: u32 = 0x00;

pub const OFF_DR: u32 = 0x04;

pub const OFF_CR: u32 = 0x08;

pub const OFF_ISR: u32 = 0x0C;

pub const OFF_PRER: u32 = 0x10;

pub const OFF_WUTR: u32 = 0x14;

pub const OFF_CALIBR: u32 = 0x18;

pub const OFF_ALRMAR: u32 = 0x1C;

pub const OFF_ALRMBR: u32 = 0x20;

pub const OFF_WPR: u32 = 0x24;

pub const OFF_SSR: u32 = 0x28;

pub const OFF_SHIFTR: u32 = 0x2C;

pub const OFF_TSTR: u32 = 0x30;

pub const OFF_TSDR: u32 = 0x34;

pub const OFF_TSSSR: u32 = 0x38;

pub const OFF_CALR: u32 = 0x3C;

pub const OFF_TAFCR: u32 = 0x40;

pub const OFF_ALRMASSR: u32 = 0x44;

pub const OFF_ALRMBSSR: u32 = 0x48;

/// The first backup register.
pub const OFF_BKP: u32 = 0x50;

/// The number of backup registers.
pub const BKP_COUNT: u32 = 20;

pub const CR_WUCKSEL: u32 = 0x7;

pub const CR_ALRAE: u32 = 0x100;

pub const CR_ALRBE: u32 = 0x200;

pub const CR_WUTE: u32 = 0x400;

pub const CR_ALRAIE: u32 = 0x1000;

pub const CR_ALRBIE: u32 = 0x2000;

pub const CR_WUTIE: u32 = 0x4000;

pub const CR_ADD1H: u32 = 0x1_0000;

pub const CR_SUB1H: u32 = 0x2_0000;

pub const CR_ADD1M: u32 = 0x4_0000;

pub const CR_SUB1M: u32 = 0x8_0000;

pub const CR_ADD1S: u32 = 0x10_0000;

pub const CR_SUB1S: u32 = 0x20_0000;

/// The bits of CR that are kept; the one-shot adjustments are not.
pub const CR_WRITABLE: u32 = 0x0300_FF7F;

/// The bits of CR that keep the clock busy: the alarms and the wake-up timer.
pub const CR_BUSY: u32 = 0x700;

pub const ISR_ALRAWF: u32 = 0x1;

pub const ISR_ALRBWF: u32 = 0x2;

pub const ISR_WUTWF: u32 = 0x4;

pub const ISR_INITS: u32 = 0x10;

pub const ISR_RSF: u32 = 0x20;

pub const ISR_INITF_INIT: u32 = 0xC0;

pub const ISR_INIT: u32 = 0x80;

pub const ISR_ALRAF: u32 = 0x100;

pub const ISR_ALRBF: u32 = 0x200;

pub const ISR_WUTF: u32 = 0x400;

/// The flags that a written zero clears.
pub const ISR_CLEARABLE: u32 = 0x700;

pub const PRER_RESET: u32 = 0x007F_00FF;

/// The prescaler fields: seven bits from bit 16, fifteen bits from bit 0.
pub const PRER_MASK: u32 = 0x007F_7FFF;

pub const ALR_MSK1: u32 = 0x80;

pub const ALR_MSK2: u32 = 0x8000;

pub const ALR_MSK3: u32 = 0x80_0000;

pub const ALR_MSK4: u32 = 0x8000_0000;

pub const ALR_WDSEL: u32 = 0x4000_0000;

/// The number of the day 2000-01-01.
pub const DAYS_2000_EPOCH: i64 = 10957;

/// The seconds from 2000-01-01 to 2021-01-01, where the clock starts.
pub const RESET_TIME: u64 = 662774400;

/// Two decimal digits in BCD.
pub open spec fn bcd(v: int) -> int {
    (v / 10) * 16 + v % 10
}

/// The number that two BCD digits stand for, at most 99. A digit above nine counts as it is.
pub open spec fn bcd_value(v: int) -> int {
    let r = v % 16 + (v / 16) % 16 * 10;
    if r > 99 {
        99
    } else {
        r
    }
}

pub fn bcd_pack(v: u8) -> (r: u32)
    ensures
        r == bcd(v as int),
{
    ((v / 10) as u32) * 16 + (v % 10) as u32
}

pub fn bcd_to_u8(v: u32) -> (r: u8)
    ensures
        r == bcd_value(v as int),
{
    let r: u32 = v % 16 + (v / 16) % 16 * 10;
    if r > 99 {
        99
    } else {
        r as u8
    }
}

/// What a count of seconds becomes in the 64-bit counter: it wraps below zero.
pub open spec fn counter_of(t: int) -> u64 {
    if t >= 0 {
        t as u64
    } else {
        (t + 0x1_0000_0000_0000_0000) as u64
    }
}

/// The seconds from 2000-01-01 to a date and a time.
pub open spec fn seconds_of(y: int, m: int, d: int, hour: int, min: int, sec: int) -> int {
    (calendar::day_number(y, m, d) - 10957) * 86400 + hour * 3600 + min * 60 + sec
}

/// Second, minute and hour of a count.
pub open spec fn hms_of(t: u64) -> (int, int, int) {
    let rem = t as int % 86400;
    (rem % 60, (rem / 60) % 60, rem / 3600)
}

/// The date of a count.
pub open spec fn date_of(t: u64) -> (int, int, int) {
    calendar::civil_of(t as int / 86400 + 10957)
}

/// The year of a count as the registers hold it (32 bits).
pub open spec fn year_of(t: u64) -> int {
    date_of(t).0 % 0x1_0000_0000
}

/// The weekday of a count, Monday as 1.
pub open spec fn weekday_of(t: u64) -> int {
    (t as int / 86400 + 5) % 7 + 1
}

/// The time register.
pub open spec fn time_register(t: u64) -> int {
    let (sec, min, hour) = hms_of(t);
    bcd(sec) + 0x100 * bcd(min) + 0x1_0000 * bcd(hour)
}

/// The date register: day, month (tens in bit 12), weekday from bit 13, year from bit 16.
pub open spec fn date_register(t: u64) -> int {
    let (_, m, d) = date_of(t);
    let yy = year_of(t) - 2000;
    bcd(d) + 0x100 * (m % 10) + 0x1000 * (m / 10) + 0x2000 * weekday_of(t) + 0x1_0000 * (yy % 10)
        + 0x10_0000 * ((yy / 10) % 0x1000)
}

/// Does an alarm register match a moment? A set mask bit leaves its field out.
pub open spec fn alarm_matches(reg: u32, t: u64) -> bool {
    let (sec, min, hour) = hms_of(t);
    &&& reg & ALR_MSK1 != 0 || bcd_value(reg as int % 128) == sec
    &&& reg & ALR_MSK2 != 0 || bcd_value((reg as int / 0x100) % 128) == min
    &&& reg & ALR_MSK3 != 0 || bcd_value((reg as int / 0x1_0000) % 64) == hour
    &&& reg & ALR_MSK4 != 0 || (if reg & ALR_WDSEL != 0 {
        (reg as int / 0x2000) % 8 == weekday_of(t)
    } else {
        bcd_value(reg as int % 64) == date_of(t).2
    })
}

/// Does a sub-second alarm register match? With a zero mask field it leaves the sub-seconds out.
pub open spec fn ss_matches(reg: u32, ssr: u32) -> bool {
    let mask = reg / 0x1000_0000;
    mask == 0 || (ssr >> mask) == ((reg % 0x8000) >> mask)
}

pub open spec fn prediv_a(prer: u32) -> int {
    (prer as int / 0x1_0000) % 128
}

pub open spec fn prediv_s(prer: u32) -> int {
    prer as int % 0x8000
}

/// The clock cycles of a second.
pub open spec fn second_cycles(prer: u32) -> int {
    (prediv_a(prer) + 1) * (prediv_s(prer) + 1)
}

/// The clock cycles of a wake-up tick.
pub open spec fn wake_cycles(cr: u32, prer: u32) -> int {
    let sel = cr & CR_WUCKSEL;
    if sel == 0 {
        2
    } else if sel == 1 {
        4
    } else if sel == 2 {
        8
    } else if sel == 3 {
        16
    } else if sel == 4 {
        second_cycles(prer)
    } else if sel == 5 {
        second_cycles(prer) * 65536
    } else if sel == 6 {
        second_cycles(prer) * 256
    } else {
        second_cycles(prer) * 16
    }
}

/// Does `offset` name a backup register?
pub open spec fn is_backup(offset: u32) -> bool {
    0x50 <= offset < 0xA0 && offset % 4 == 0
}

/// Registers that are there and hold nothing.
pub open spec fn is_inert(offset: u32) -> bool {
    ||| offset == OFF_CALIBR
    ||| 0x2C <= offset <= 0x40 && offset % 4 == 0
}

/// The fields of a written date register.
pub open spec fn dr_day(value: u32) -> int {
    let d = bcd_value(value as int % 64);
    if d > 31 {
        31
    } else {
        d
    }
}

pub open spec fn dr_month(value: u32) -> int {
    let m = (value as int / 0x1000) % 2 * 10 + bcd_value((value as int / 0x100) % 16);
    if m == 0 {
        1
    } else if m > 12 {
        12
    } else {
        m
    }
}

pub open spec fn dr_year(value: u32) -> int {
    2000 + (value as int / 0x10_0000) % 16 * 10 + bcd_value((value as int / 0x1_0000) % 16)
}

/// Real-time clock.
pub struct Rtc {
    time_s: u64,
    accum: u64,
    ssr: u32,
    cr: u32,
    isr_flags: u32,
    init: bool,
    initialized: bool,
    left_init: bool,
    prer: u32,
    wutr: u32,
    wut_cnt: u32,
    wut_accum: u64,
    alrmar: u32,
    alrmbr: u32,
    alrmassr: u32,
    alrmbssr: u32,
    wpr_step: u32,
    unlocked: bool,
    bkp: [u32; 20],
    active: bool,
}

/// The state of the clock.
#[verifier::ext_equal]
pub struct RtcView {
    /// Seconds from 2000-01-01.
    pub time_s: u64,
    /// Cycles of the running second.
    pub accum: u64,
    /// The sub-second counter, counting down.
    pub ssr: u32,
    pub cr: u32,
    /// The alarm and wake-up flags.
    pub isr_flags: u32,
    /// Initialisation mode: the calendar stands still.
    pub init: bool,
    /// The date was set once.
    pub initialized: bool,
    /// Initialisation mode was left once: the calendar serves as a source of time.
    pub left_init: bool,
    pub prer: u32,
    pub wutr: u32,
    pub wut_cnt: u32,
    pub wut_accum: u64,
    pub alrmar: u32,
    pub alrmbr: u32,
    pub alrmassr: u32,
    pub alrmbssr: u32,
    /// 1 after the first key byte.
    pub wpr_step: u32,
    pub unlocked: bool,
    pub bkp: Seq<u32>,
    /// Does anything depend on the clock running?
    pub active: bool,
}

impl View for Rtc {
    type V = RtcView;

    closed spec fn view(&self) -> RtcView {
        RtcView {
            time_s: self.time_s,
            accum: self.accum,
            ssr: self.ssr,
            cr: self.cr,
            isr_flags: self.isr_flags,
            init: self.init,
            initialized: self.initialized,
            left_init: self.left_init,
            prer: self.prer,
            wutr: self.wutr,
            wut_cnt: self.wut_cnt,
            wut_accum: self.wut_accum,
            alrmar: self.alrmar,
            alrmbr: self.alrmbr,
            alrmassr: self.alrmassr,
            alrmbssr: self.alrmbssr,
            wpr_step: self.wpr_step,
            unlocked: self.unlocked,
            bkp: self.bkp@,
            active: self.active,
        }
    }
}

impl RtcView {
    /// The reset state with the given backup registers and activity flag.
    pub open spec fn fresh(bkp: Seq<u32>, active: bool) -> RtcView {
        RtcView {
            time_s: RESET_TIME,
            accum: 0,
            ssr: 0xFF,
            cr: 0,
            isr_flags: 0,
            init: false,
            initialized: false,
            left_init: false,
            prer: PRER_RESET,
            wutr: 0xFFFF,
            wut_cnt: 0xFFFF,
            wut_accum: 0,
            alrmar: 0,
            alrmbr: 0,
            alrmassr: 0,
            alrmbssr: 0,
            wpr_step: 0,
            unlocked: false,
            bkp,
            active,
        }
    }

    /// The activity flag computed anew: an alarm or the wake-up timer is enabled, or the calendar
    /// was set up.
    pub open spec fn sync_active(self) -> RtcView {
        RtcView {
            active: self.cr & CR_BUSY != 0 || self.initialized || self.left_init,
            ..self
        }
    }

    /// Does alarm A go off now? A flag that is up keeps it from doing so again.
    pub open spec fn alarm_a_due(self) -> bool {
        &&& self.cr & CR_ALRAE != 0
        &&& alarm_matches(self.alrmar, self.time_s)
        &&& ss_matches(self.alrmassr, self.ssr)
        &&& self.isr_flags & ISR_ALRAF == 0
    }

    pub open spec fn alarm_b_due(self) -> bool {
        &&& self.cr & CR_ALRBE != 0
        &&& alarm_matches(self.alrmbr, self.time_s)
        &&& ss_matches(self.alrmbssr, self.ssr)
        &&& self.isr_flags & ISR_ALRBF == 0
    }

    pub open spec fn check_alarm_a(self, w: WiresView) -> (RtcView, WiresView) {
        if self.alarm_a_due() {
            (
                RtcView { isr_flags: self.isr_flags | ISR_ALRAF, ..self },
                w.pend_if(self.cr & CR_ALRAIE != 0, RTC_ALARM_IRQ),
            )
        } else {
            (self, w)
        }
    }

    pub open spec fn check_alarm_b(self, w: WiresView) -> (RtcView, WiresView) {
        if self.alarm_b_due() {
            (
                RtcView { isr_flags: self.isr_flags | ISR_ALRBF, ..self },
                w.pend_if(self.cr & CR_ALRBIE != 0, RTC_ALARM_IRQ),
            )
        } else {
            (self, w)
        }
    }

    pub open spec fn check_alarms(self, w: WiresView) -> (RtcView, WiresView) {
        let (s1, w1) = self.check_alarm_a(w);
        s1.check_alarm_b(w1)
    }

    /// One second passes.
    pub open spec fn second(self, w: WiresView) -> (RtcView, WiresView) {
        RtcView { time_s: (self.time_s + 1) as u64, ..self }.check_alarms(w)
    }

    /// `n` seconds pass, one after the other.
    pub open spec fn seconds(self, w: WiresView, n: int) -> (RtcView, WiresView)
        decreases n,
    {
        if n <= 0 {
            (self, w)
        } else {
            let (s1, w1) = self.seconds(w, n - 1);
            s1.second(w1)
        }
    }

    /// The calendar advances by clock cycles.
    pub open spec fn advance(self, w: WiresView, cycles: u64) -> (RtcView, WiresView) {
        if cycles == 0 {
            (self, w)
        } else {
            let total = self.accum + cycles;
            let p = second_cycles(self.prer);
            let (s1, w1) = RtcView { accum: (total % p) as u64, ..self }.seconds(w, total / p);
            (
                RtcView {
                    ssr: (prediv_s(self.prer) - (total % p) / (prediv_a(self.prer) + 1)) as u32,
                    ..s1
                },
                w1,
            )
        }
    }

    /// One tick of the wake-up timer: it counts down, and at zero it fires and starts over.
    pub open spec fn wake_tick(self, w: WiresView) -> (RtcView, WiresView) {
        if self.wut_cnt == 0 {
            (
                RtcView {
                    wut_cnt: self.wutr & 0xFFFF,
                    isr_flags: self.isr_flags | ISR_WUTF,
                    ..self
                },
                w.pend_if(self.cr & CR_WUTIE != 0, RTC_WKUP_IRQ),
            )
        } else {
            (RtcView { wut_cnt: (self.wut_cnt - 1) as u32, ..self }, w)
        }
    }

    pub open spec fn wake_ticks(self, w: WiresView, n: int) -> (RtcView, WiresView)
        decreases n,
    {
        if n <= 0 {
            (self, w)
        } else {
            let (s1, w1) = self.wake_ticks(w, n - 1);
            s1.wake_tick(w1)
        }
    }

    /// The wake-up timer advances by clock cycles.
    pub open spec fn advance_wakeup(self, w: WiresView, cycles: u64) -> (RtcView, WiresView) {
        if self.cr & CR_WUTE == 0 || cycles == 0 {
            (self, w)
        } else {
            let total = self.wut_accum + cycles;
            let p = wake_cycles(self.cr, self.prer);
            RtcView { wut_accum: (total % p) as u64, ..self }.wake_ticks(w, total / p)
        }
    }

    /// The calendar set to a time of the current day.
    pub open spec fn write_tr(self, value: u32) -> RtcView {
        let (_, m, d) = date_of(self.time_s);
        RtcView {
            time_s: counter_of(
                seconds_of(
                    year_of(self.time_s),
                    m,
                    d,
                    bcd_value((value as int / 0x1_0000) % 64),
                    bcd_value((value as int / 0x100) % 128),
                    bcd_value(value as int % 128),
                ),
            ),
            ..self
        }
    }

    /// The calendar set to a date; the time of day stays. From then on the calendar counts as
    /// initialised.
    pub open spec fn write_dr(self, value: u32) -> RtcView {
        let (sec, min, hour) = hms_of(self.time_s);
        RtcView {
            time_s: counter_of(
                seconds_of(dr_year(value), dr_month(value), dr_day(value), hour, min, sec),
            ),
            initialized: true,
            ..self
        }.sync_active()
    }

    /// The count after the one-shot adjustments of a control word.
    pub open spec fn adjusted(t: u64, value: u32) -> u64 {
        let t1 = Self::more(t, value & CR_ADD1H != 0, 3600);
        let t2 = Self::less(t1, value & CR_SUB1H != 0, 3600);
        let t3 = Self::more(t2, value & CR_ADD1M != 0, 60);
        let t4 = Self::less(t3, value & CR_SUB1M != 0, 60);
        let t5 = Self::more(t4, value & CR_ADD1S != 0, 1);
        Self::less(t5, value & CR_SUB1S != 0, 1)
    }

    pub open spec fn more(t: u64, on: bool, by: int) -> u64 {
        if !on {
            t
        } else if t + by > u64::MAX {
            u64::MAX
        } else {
            (t + by) as u64
        }
    }

    pub open spec fn less(t: u64, on: bool, by: int) -> u64 {
        if !on {
            t
        } else if t < by {
            0
        } else {
            (t - by) as u64
        }
    }

    /// The control word that a write leaves: the wake-up clock selection holds while the
    /// wake-up timer runs.
    pub open spec fn next_cr(self, value: u32) -> u32 {
        let v = value & CR_WRITABLE;
        if self.cr & CR_WUTE != 0 {
            (self.cr & CR_WUCKSEL) | (v & !CR_WUCKSEL)
        } else {
            v
        }
    }

    pub open spec fn write_cr(self, w: WiresView, value: u32) -> (RtcView, WiresView) {
        let cr = self.next_cr(value);
        let s1 = RtcView { cr, time_s: Self::adjusted(self.time_s, value), ..self };
        let (s2, w2) = if self.cr & CR_ALRAE == 0 && cr & CR_ALRAE != 0 {
            s1.check_alarms(w)
        } else {
            (s1, w)
        };
        let (s3, w3) = if self.cr & CR_ALRBE == 0 && cr & CR_ALRBE != 0 {
            s2.check_alarms(w2)
        } else {
            (s2, w2)
        };
        let s4 = if self.cr & CR_WUTE == 0 && cr & CR_WUTE != 0 {
            RtcView {
                isr_flags: s3.isr_flags & !ISR_WUTF,
                wut_cnt: s3.wutr & 0xFFFF,
                wut_accum: 0,
                ..s3
            }
        } else {
            s3
        };
        (s4.sync_active(), w3)
    }

    /// Initialisation mode is left: a fresh second starts, and the alarms are compared. From then
    /// on the clock is active, whatever was set.
    pub open spec fn exit_init(self, w: WiresView) -> (RtcView, WiresView) {
        RtcView {
            init: false,
            left_init: true,
            accum: 0,
            ssr: self.prer % 0x8000,
            ..self
        }.sync_active().check_alarms(w)
    }

    /// Zeros clear flags, with or without the lock. The request bit enters and leaves
    /// initialisation mode.
    pub open spec fn write_isr(self, w: WiresView, value: u32) -> (RtcView, WiresView) {
        let s1 = RtcView { isr_flags: self.isr_flags & (value & ISR_CLEARABLE), ..self };
        if !s1.unlocked {
            (s1, w)
        } else if value & ISR_INIT != 0 {
            (RtcView { init: true, ..s1 }, w)
        } else if s1.init {
            s1.exit_init(w)
        } else {
            (s1, w)
        }
    }

    pub open spec fn write_wpr(self, value: u32) -> RtcView {
        let key = value % 256;
        if self.wpr_step == 0 && key == 0xCA {
            RtcView { wpr_step: 1, ..self }
        } else if self.wpr_step == 1 && key == 0x53 {
            RtcView { wpr_step: 0, unlocked: true, ..self }
        } else {
            RtcView { wpr_step: 0, unlocked: false, ..self }
        }
    }

    /// The flag register.
    pub open spec fn isr(self) -> u32 {
        let v = self.isr_flags | (if self.init {
            ISR_INITF_INIT
        } else {
            ISR_RSF
        });
        let v = if self.initialized {
            v | ISR_INITS
        } else {
            v
        };
        let v = if self.cr & CR_ALRAE == 0 {
            v | ISR_ALRAWF
        } else {
            v
        };
        let v = if self.cr & CR_ALRBE == 0 {
            v | ISR_ALRBWF
        } else {
            v
        };
        if self.cr & CR_WUTE == 0 {
            v | ISR_WUTWF
        } else {
            v
        }
    }

    pub open spec fn read(self, offset: u32, size: u32) -> Result<u32, BusError> {
        if size != 4 {
            Err(BusError::NotImplemented)
        } else if is_backup(offset) {
            Ok(self.bkp[(offset - 0x50) / 4])
        } else if offset == OFF_TR {
            Ok(time_register(self.time_s) as u32)
        } else if offset == OFF_DR {
            Ok(date_register(self.time_s) as u32)
        } else if offset == OFF_CR {
            Ok(self.cr)
        } else if offset == OFF_ISR {
            Ok(self.isr())
        } else if offset == OFF_PRER {
            Ok(self.prer)
        } else if offset == OFF_WUTR {
            Ok(self.wutr)
        } else if offset == OFF_ALRMAR {
            Ok(self.alrmar)
        } else if offset == OFF_ALRMBR {
            Ok(self.alrmbr)
        } else if offset == OFF_SSR {
            Ok(self.ssr)
        } else if offset == OFF_ALRMASSR {
            Ok(self.alrmassr)
        } else if offset == OFF_ALRMBSSR {
            Ok(self.alrmbssr)
        } else if offset == OFF_WPR || is_inert(offset) {
            Ok(0u32)
        } else {
            Err(BusError::OutOfRange)
        }
    }

    /// A write to a protected register of an unlocked clock.
    pub open spec fn write_protected(self, offset: u32, value: u32) -> RtcView {
        if offset == OFF_TR {
            if self.init {
                self.write_tr(value)
            } else {
                self
            }
        } else if offset == OFF_DR {
            if self.init {
                self.write_dr(value)
            } else {
                self
            }
        } else if offset == OFF_PRER {
            if self.init {
                RtcView {
                    prer: value & PRER_MASK,
                    accum: 0,
                    ssr: (value & PRER_MASK) % 0x8000,
                    ..self
                }
            } else {
                self
            }
        } else if offset == OFF_WUTR {
            if self.cr & CR_WUTE == 0 {
                RtcView { wutr: value % 0x1_0000, ..self }
            } else {
                self
            }
        } else if offset == OFF_ALRMAR {
            if self.cr & CR_ALRAE == 0 {
                RtcView { alrmar: value, ..self }
            } else {
                self
            }
        } else if offset == OFF_ALRMBR {
            if self.cr & CR_ALRBE == 0 {
                RtcView { alrmbr: value, ..self }
            } else {
                self
            }
        } else if offset == OFF_ALRMASSR {
            if self.cr & CR_ALRAE == 0 {
                RtcView { alrmassr: value, ..self }
            } else {
                self
            }
        } else {
            if self.cr & CR_ALRBE == 0 {
                RtcView { alrmbssr: value, ..self }
            } else {
                self
            }
        }
    }

    pub open spec fn is_protected(offset: u32) -> bool {
        ||| offset == OFF_TR
        ||| offset == OFF_DR
        ||| offset == OFF_PRER
        ||| offset == OFF_WUTR
        ||| offset == OFF_ALRMAR
        ||| offset == OFF_ALRMBR
        ||| offset == OFF_ALRMASSR
        ||| offset == OFF_ALRMBSSR
    }

    pub open spec fn write(self, w: WiresView, offset: u32, size: u32, value: u32) -> (
        RtcView,
        WiresView,
        Result<(), BusError>,
    ) {
        if offset == OFF_WPR && size == 1 {
            (self.write_wpr(value), w, Ok(()))
        } else if size != 4 {
            (self, w, Err(BusError::NotImplemented))
        } else if offset == OFF_WPR {
            (self.write_wpr(value), w, Ok(()))
        } else if is_backup(offset) {
            (
                if w.backup_writable {
                    RtcView { bkp: self.bkp.update((offset - 0x50) / 4, value), ..self }
                } else {
                    self
                },
                w,
                Ok(()),
            )
        } else if Self::is_protected(offset) {
            (
                if self.unlocked {
                    self.write_protected(offset, value)
                } else {
                    self
                },
                w,
                Ok(()),
            )
        } else if offset == OFF_CR {
            if self.unlocked {
                let (s1, w1) = self.write_cr(w, value);
                (s1, w1, Ok(()))
            } else {
                (self, w, Ok(()))
            }
        } else if offset == OFF_ISR {
            let (s, w1) = self.write_isr(w, value);
            (s, w1, Ok(()))
        } else if is_inert(offset) {
            (self, w, Ok(()))
        } else {
            (self, w, Err(BusError::OutOfRange))
        }
    }

    /// Counters that cannot overflow within this many cycles.
    pub open spec fn room_for(self, cycles: u64) -> bool {
        &&& self.cr & CR_WUTE != 0 ==> self.wut_accum + cycles <= u64::MAX
        &&& !self.init ==> self.accum + cycles <= u64::MAX && self.time_s + (self.accum + cycles)
            / second_cycles(self.prer) <= u64::MAX
    }
}

impl Rtc {
    pub fn new() -> (r: Self)
        ensures
            r@ == RtcView::fresh(Seq::new(20, |i: int| 0u32), false),
    {
        Self::with_active(false)
    }

    /// Starts with the activity flag as given.
    pub fn with_active(active: bool) -> (r: Self)
        ensures
            r@ == RtcView::fresh(Seq::new(20, |i: int| 0u32), active),
    {
        let r = Rtc {
            time_s: RESET_TIME,
            accum: 0,
            ssr: 0xFF,
            cr: 0,
            isr_flags: 0,
            init: false,
            initialized: false,
            left_init: false,
            prer: PRER_RESET,
            wutr: 0xFFFF,
            wut_cnt: 0xFFFF,
            wut_accum: 0,
            alrmar: 0,
            alrmbr: 0,
            alrmassr: 0,
            alrmbssr: 0,
            wpr_step: 0,
            unlocked: false,
            bkp: bits::filled(0),
            active,
        };
        assert(r@ =~= RtcView::fresh(Seq::new(20, |i: int| 0u32), active));
        r
    }

    fn sync_active(&mut self)
        ensures
            final(self)@ == old(self)@.sync_active(),
    {
        self.active = self.cr & CR_BUSY != 0 || self.initialized || self.left_init;
    }

    /// Does the clock need ticks?
    pub fn active(&self) -> (r: bool)
        ensures
            r == self@.active,
    {
        self.active
    }

    /// May the register be read? The date register shows years from 2000 on.
    pub fn takes_read(&self, offset: u32, size: u32) -> (r: bool)
        ensures
            r == (offset == OFF_DR && size == 4 ==> year_of(self@.time_s) >= 2000),
    {
        if offset == OFF_DR && size == 4 {
            let (y, _, _, _) = self.ymd();
            y >= 2000
        } else {
            true
        }
    }

    /// May the register be written? There is no date on day 0 of March.
    pub fn takes_write(&self, offset: u32, size: u32, value: u32) -> (r: bool)
        ensures
            r == (offset == OFF_DR && size == 4 && self@.unlocked && self@.init ==> !(dr_month(value)
                == 3 && dr_day(value) == 0)),
    {
        let day = bcd_to_u8(value % 64);
        let month: u32 = (value / 0x1000) % 2 * 10 + bcd_to_u8((value / 0x100) % 16) as u32;
        !(offset == OFF_DR && size == 4 && self.unlocked && self.init && month == 3 && day == 0)
    }

    /// Do the counters have room for this many cycles?
    pub fn takes_tick(&self, cycles: u64) -> (r: bool)
        ensures
            r == self@.room_for(cycles),
    {
        if self.cr & CR_WUTE != 0 && self.wut_accum > u64::MAX - cycles {
            return false;
        }
        if self.init {
            return true;
        }
        if self.accum > u64::MAX - cycles {
            return false;
        }
        let a: u64 = ((self.prer / 0x1_0000) % 128) as u64 + 1;
        let s: u64 = (self.prer % 0x8000) as u64 + 1;
        proof {
            lemma_periods(self.cr, self.prer);
        }
        let n: u64 = (self.accum + cycles) / (a * s);
        self.time_s <= u64::MAX - n
    }

    /// Second, minute and hour.
    pub fn hms(&self) -> (r: (u8, u8, u8))
        ensures
            (r.0 as int, r.1 as int, r.2 as int) == hms_of(self@.time_s),
            r.0 < 60,
            r.1 < 60,
            r.2 < 24,
    {
        let rem: u64 = self.time_s % 86400;
        ((rem % 60) as u8, ((rem / 60) % 60) as u8, (rem / 3600) as u8)
    }

    /// Year, month, day and weekday (Monday as 1).
    pub fn ymd(&self) -> (r: (u32, u32, u32, u8))
        ensures
            r.0 == year_of(self@.time_s),
            r.1 == date_of(self@.time_s).1,
            r.2 == date_of(self@.time_s).2,
            r.3 == weekday_of(self@.time_s),
            1 <= r.1 <= 12,
            1 <= r.2 <= 31,
            1 <= r.3 <= 7,
    {
        let days: i64 = (self.time_s / 86400) as i64;
        let (y, m, d) = calendar::civil_from_days(days + DAYS_2000_EPOCH);
        proof {
            lemma_year_positive(y as int, m as int, d as int, days as int);
        }
        let weekday: u8 = ((days + 5) % 7 + 1) as u8;
        ((y % 0x1_0000_0000) as u32, m as u32, d as u32, weekday)
    }

    fn time_from_ymd_hms(year: u32, month: u32, day: u32, hour: u32, min: u32, sec: u32) -> (r: u64)
        requires
            1 <= month <= 12,
            day <= 99,
            !(month == 3 && day == 0),
            hour <= 99,
            min <= 99,
            sec <= 99,
        ensures
            r == counter_of(
                seconds_of(
                    year as int,
                    month as int,
                    day as int,
                    hour as int,
                    min as int,
                    sec as int,
                ),
            ),
    {
        let days: i64 = calendar::days_from_civil(year as i64, month as u64, day as u64)
            - DAYS_2000_EPOCH;
        let t: i64 = days * 86400 + hour as i64 * 3600 + min as i64 * 60 + sec as i64;
        if t >= 0 {
            t as u64
        } else {
            u64::MAX - ((-(t + 1)) as u64)
        }
    }

    fn alarm_matches(&self, reg: u32) -> (r: bool)
        ensures
            r == alarm_matches(reg, self@.time_s),
    {
        let (sec, min, hour) = self.hms();
        let (_, _, day, weekday) = self.ymd();
        if reg & ALR_MSK1 == 0 && bcd_to_u8(reg % 128) != sec {
            return false;
        }
        if reg & ALR_MSK2 == 0 && bcd_to_u8((reg / 0x100) % 128) != min {
            return false;
        }
        if reg & ALR_MSK3 == 0 && bcd_to_u8((reg / 0x1_0000) % 64) != hour {
            return false;
        }
        if reg & ALR_MSK4 == 0 {
            if reg & ALR_WDSEL != 0 {
                return (reg / 0x2000) % 8 == weekday as u32;
            }
            return bcd_to_u8(reg % 64) as u32 == day;
        }
        true
    }

    fn ss_matches(&self, reg: u32) -> (r: bool)
        ensures
            r == ss_matches(reg, self@.ssr),
    {
        let mask: u32 = reg / 0x1000_0000;
        if mask == 0 {
            return true;
        }
        (self.ssr >> mask) == ((reg % 0x8000) >> mask)
    }

    /// Lets the alarms go off that are due.
    fn check_alarms(&mut self, w: &mut Wires)
        ensures
            (final(self)@, final(w)@) == old(self)@.check_alarms(old(w)@),
    {
        if self.cr & CR_ALRAE != 0 && self.alarm_matches(self.alrmar) && self.ss_matches(
            self.alrmassr,
        ) {
            if self.isr_flags & ISR_ALRAF == 0 {
                self.isr_flags = self.isr_flags | ISR_ALRAF;
                if self.cr & CR_ALRAIE != 0 {
                    w.pend(RTC_ALARM_IRQ);
                }
            }
        }
        if self.cr & CR_ALRBE != 0 && self.alarm_matches(self.alrmbr) && self.ss_matches(
            self.alrmbssr,
        ) {
            if self.isr_flags & ISR_ALRBF == 0 {
                self.isr_flags = self.isr_flags | ISR_ALRBF;
                if self.cr & CR_ALRBIE != 0 {
                    w.pend(RTC_ALARM_IRQ);
                }
            }
        }
    }

    /// Advances the calendar.
    fn advance(&mut self, w: &mut Wires, cycles: u64)
        requires
            old(self)@.accum + cycles <= u64::MAX,
            old(self)@.time_s + (old(self)@.accum + cycles) / second_cycles(old(self)@.prer)
                <= u64::MAX,
        ensures
            (final(self)@, final(w)@) == old(self)@.advance(old(w)@, cycles),
    {
        if cycles == 0 {
            return ;
        }
        let a: u64 = ((self.prer / 0x1_0000) % 128) as u64 + 1;
        let s: u64 = (self.prer % 0x8000) as u64 + 1;
        proof {
            lemma_periods(self.cr, self.prer);
        }
        let period: u64 = a * s;
        let total: u64 = self.accum + cycles;
        let n: u64 = total / period;
        self.accum = total % period;
        let ghost s0 = self@;
        let ghost w0 = w@;
        let mut i: u64 = 0;
        while i < n
            invariant
                i <= n,
                (self@, w@) == s0.seconds(w0, i as int),
                self@.time_s == s0.time_s + i,
                s0.time_s + n <= u64::MAX,
            decreases n - i,
        {
            self.time_s = self.time_s + 1;
            self.check_alarms(w);
            i = i + 1;
        }
        proof {
            lemma_seconds_frame(s0, w0, n as int);
            let rem = total % period;
            assert(rem / a < s) by (nonlinear_arith)
                requires
                    rem < period,
                    period == a * s,
                    a > 0,
            ;
        }
        self.ssr = (s as u32 - 1) - (self.accum / a) as u32;
    }

    /// Advances the wake-up timer.
    fn advance_wakeup(&mut self, w: &mut Wires, cycles: u64)
        requires
            old(self)@.cr & CR_WUTE != 0 ==> old(self)@.wut_accum + cycles <= u64::MAX,
        ensures
            (final(self)@, final(w)@) == old(self)@.advance_wakeup(old(w)@, cycles),
    {
        if self.cr & CR_WUTE == 0 || cycles == 0 {
            return ;
        }
        let a: u64 = ((self.prer / 0x1_0000) % 128) as u64 + 1;
        let s: u64 = (self.prer % 0x8000) as u64 + 1;
        proof {
            lemma_periods(self.cr, self.prer);
        }
        let ck_spre: u64 = a * s;
        let sel: u32 = self.cr & CR_WUCKSEL;
        let period: u64 = if sel == 0 {
            2
        } else if sel == 1 {
            4
        } else if sel == 2 {
            8
        } else if sel == 3 {
            16
        } else if sel == 4 {
            ck_spre
        } else if sel == 5 {
            ck_spre * 65536
        } else if sel == 6 {
            ck_spre * 256
        } else {
            ck_spre * 16
        };
        let total: u64 = self.wut_accum + cycles;
        let n: u64 = total / period;
        self.wut_accum = total % period;
        let ghost s0 = self@;
        let ghost w0 = w@;
        let mut i: u64 = 0;
        while i < n
            invariant
                i <= n,
                (self@, w@) == s0.wake_ticks(w0, i as int),
            decreases n - i,
        {
            if self.wut_cnt == 0 {
                self.wut_cnt = self.wutr & 0xFFFF;
                self.isr_flags = self.isr_flags | ISR_WUTF;
                if self.cr & CR_WUTIE != 0 {
                    w.pend(RTC_WKUP_IRQ);
                }
            } else {
                self.wut_cnt = self.wut_cnt - 1;
            }
            i = i + 1;
        }
    }

    fn read_tr(&self) -> (r: u32)
        ensures
            r == time_register(self@.time_s),
    {
        let (sec, min, hour) = self.hms();
        bcd_pack(sec) + 0x100 * bcd_pack(min) + 0x1_0000 * bcd_pack(hour)
    }

    fn read_dr(&self) -> (r: u32)
        requires
            year_of(self@.time_s) >= 2000,
        ensures
            r == date_register(self@.time_s),
    {
        let (y, m, d, wd) = self.ymd();
        let yy: u32 = y - 2000;
        bcd_pack(d as u8) + 0x100 * (m % 10) + 0x1000 * (m / 10) + 0x2000 * (wd as u32) + 0x1_0000
            * (yy % 10) + 0x10_0000 * ((yy / 10) % 0x1000)
    }

    fn write_tr(&mut self, value: u32)
        ensures
            final(self)@ == old(self)@.write_tr(value),
    {
        let sec = bcd_to_u8(value % 128);
        let min = bcd_to_u8((value / 0x100) % 128);
        let hour = bcd_to_u8((value / 0x1_0000) % 64);
        let (y, m, d, _) = self.ymd();
        self.time_s =
        Self::time_from_ymd_hms(y, m, d, hour as u32, min as u32, sec as u32);
    }

    fn write_dr(&mut self, value: u32)
        requires
            !(dr_month(value) == 3 && dr_day(value) == 0),
        ensures
            final(self)@ == old(self)@.write_dr(value),
    {
        let mut day: u32 = bcd_to_u8(value % 64) as u32;
        if day > 31 {
            day = 31;
        }
        let mut month: u32 = (value / 0x1000) % 2 * 10 + bcd_to_u8((value / 0x100) % 16) as u32;
        if month == 0 {
            month = 1;
        }
        if month > 12 {
            month = 12;
        }
        let year: u32 = 2000 + (value / 0x10_0000) % 16 * 10 + bcd_to_u8(
            (value / 0x1_0000) % 16,
        ) as u32;
        let (sec, min, hour) = self.hms();
        self.time_s =
        Self::time_from_ymd_hms(year, month, day, hour as u32, min as u32, sec as u32);
        self.initialized = true;
        self.sync_active();
    }

    /// Applies the one-shot adjustments of a control word.
    #[verifier::spinoff_prover]
    fn adjust(&mut self, value: u32)
        ensures
            final(self)@ == (RtcView {
                time_s: RtcView::adjusted(old(self)@.time_s, value),
                ..old(self)@
            }),
    {
        if value & CR_ADD1H != 0 {
            self.time_s = self.time_s.saturating_add(3600);
        }
        if value & CR_SUB1H != 0 {
            self.time_s = self.time_s.saturating_sub(3600);
        }
        if value & CR_ADD1M != 0 {
            self.time_s = self.time_s.saturating_add(60);
        }
        if value & CR_SUB1M != 0 {
            self.time_s = self.time_s.saturating_sub(60);
        }
        if value & CR_ADD1S != 0 {
            self.time_s = self.time_s.saturating_add(1);
        }
        if value & CR_SUB1S != 0 {
            self.time_s = self.time_s.saturating_sub(1);
        }
    }

    fn write_cr(&mut self, w: &mut Wires, value: u32)
        ensures
            (final(self)@, final(w)@) == old(self)@.write_cr(old(w)@, value),
    {
        let mut v: u32 = value & CR_WRITABLE;
        if self.cr & CR_WUTE != 0 {
            v = (self.cr & CR_WUCKSEL) | (v & !CR_WUCKSEL);
        }
        let alra_old = self.cr & CR_ALRAE != 0;
        let alrb_old = self.cr & CR_ALRBE != 0;
        let wute_old = self.cr & CR_WUTE != 0;
        self.cr = v;
        self.adjust(value);
        if !alra_old && v & CR_ALRAE != 0 {
            self.check_alarms(w);
        }
        if !alrb_old && v & CR_ALRBE != 0 {
            self.check_alarms(w);
        }
        if !wute_old && v & CR_WUTE != 0 {
            self.isr_flags = self.isr_flags & !ISR_WUTF;
            self.wut_cnt = self.wutr & 0xFFFF;
            self.wut_accum = 0;
        }
        self.sync_active();
    }

    fn enter_init(&mut self)
        ensures
            final(self)@ == (RtcView { init: true, ..old(self)@ }),
    {
        self.init = true;
    }

    /// Leaves initialisation mode: the calendar runs on from a fresh second.
    fn exit_init(&mut self, w: &mut Wires)
        ensures
            (final(self)@, final(w)@) == old(self)@.exit_init(old(w)@),
    {
        self.init = false;
        self.left_init = true;
        self.accum = 0;
        self.ssr = self.prer % 0x8000;
        self.sync_active();
        self.check_alarms(w);
    }

    fn write_isr(&mut self, w: &mut Wires, value: u32)
        ensures
            (final(self)@, final(w)@) == old(self)@.write_isr(old(w)@, value),
    {
        self.isr_flags = self.isr_flags & (value & ISR_CLEARABLE);
        if !self.unlocked {
            return ;
        }
        let want_init = value & ISR_INIT != 0;
        if want_init && !self.init {
            self.enter_init();
        } else if !want_init && self.init {
            self.exit_init(w);
        }
    }

    fn write_wpr(&mut self, value: u32)
        ensures
            final(self)@ == old(self)@.write_wpr(value),
    {
        let key: u32 = value % 256;
        if self.wpr_step == 0 && key == 0xCA {
            self.wpr_step = 1;
        } else if self.wpr_step == 1 && key == 0x53 {
            self.wpr_step = 0;
            self.unlocked = true;
        } else {
            self.wpr_step = 0;
            self.unlocked = false;
        }
    }

    fn bkp_index(offset: u32) -> (r: Option<usize>)
        ensures
            r is Some <==> is_backup(offset),
            r matches Some(i) ==> i == (offset - 0x50) / 4 && i < 20,
    {
        if offset >= OFF_BKP && offset < OFF_BKP + BKP_COUNT * 4 && offset % 4 == 0 {
            Some(((offset - OFF_BKP) / 4) as usize)
        } else {
            None
        }
    }

    fn write_protected(&mut self, offset: u32, value: u32)
        requires
            offset == OFF_DR && old(self)@.init ==> !(dr_month(value) == 3 && dr_day(value) == 0),
            RtcView::is_protected(offset),
        ensures
            final(self)@ == old(self)@.write_protected(offset, value),
    {
        match offset {
            OFF_TR => {
                if self.init {
                    self.write_tr(value);
                }
            },
            OFF_DR => {
                if self.init {
                    self.write_dr(value);
                }
            },
            OFF_PRER => {
                if self.init {
                    self.prer = value & PRER_MASK;
                    self.accum = 0;
                    self.ssr = self.prer % 0x8000;
                }
            },
            OFF_WUTR => {
                if self.cr & CR_WUTE == 0 {
                    self.wutr = value % 0x1_0000;
                }
            },
            OFF_ALRMAR => {
                if self.cr & CR_ALRAE == 0 {
                    self.alrmar = value;
                }
            },
            OFF_ALRMBR => {
                if self.cr & CR_ALRBE == 0 {
                    self.alrmbr = value;
                }
            },
            OFF_ALRMASSR => {
                if self.cr & CR_ALRAE == 0 {
                    self.alrmassr = value;
                }
            },
            _ => {
                if self.cr & CR_ALRBE == 0 {
                    self.alrmbssr = value;
                }
            },
        }
    }
}

proof fn lemma_year_positive(y: int, m: int, d: int, days: int)
    requires
        calendar::is_date(y, m, d),
        calendar::day_number(y, m, d) == days + 10957,
        days >= 0,
    ensures
        y >= 2000,
        d <= 31,
{
    if y < 2000 {
        assert(calendar::days_before_year(y + 1) <= calendar::days_before_year(2000)) by {
            assert((y / 100) * 100 <= y);
        }
    }
}

/// The periods stay small.
proof fn lemma_periods(cr: u32, prer: u32)
    ensures
        1 <= second_cycles(prer) <= 0x40_0000,
        1 <= wake_cycles(cr, prer) <= 0x40_0000 * 65536,
{
    let a = prediv_a(prer) + 1;
    let s = prediv_s(prer) + 1;
    assert(1 <= a * s <= 128 * 0x8000) by (nonlinear_arith)
        requires
            1 <= a <= 128,
            1 <= s <= 0x8000,
    ;
}

/// Passing seconds change nothing but the count and the alarm flags.
proof fn lemma_seconds_frame(s: RtcView, w: WiresView, n: int)
    requires
        n >= 0,
        s.time_s + n <= u64::MAX,
    ensures
        ({
            let t = s.seconds(w, n).0;
            &&& t.time_s == s.time_s + n
            &&& t.prer == s.prer
            &&& t == (RtcView { time_s: t.time_s, isr_flags: t.isr_flags, ..s })
        }),
    decreases n,
{
    if n > 0 {
        lemma_seconds_frame(s, w, n - 1);
    }
}

impl Peripheral for Rtc {
    open spec fn inv(s: RtcView) -> bool {
        s.bkp.len() == 20
    }

    /// A year that the date register can show.
    open spec fn readable(s: RtcView, w: WiresView, offset: u32, size: u32) -> bool {
        offset == OFF_DR && size == 4 ==> year_of(s.time_s) >= 2000
    }

    open spec fn read_of(s: RtcView, w: WiresView, offset: u32, size: u32) -> (
        RtcView,
        WiresView,
        Result<u32, BusError>,
    ) {
        (s, w, s.read(offset, size))
    }

    /// A date that is not day 0 of March.
    open spec fn writable(s: RtcView, w: WiresView, offset: u32, size: u32, value: u32) -> bool {
        offset == OFF_DR && size == 4 && s.unlocked && s.init ==> !(dr_month(value) == 3 && dr_day(
            value,
        ) == 0)
    }

    open spec fn write_of(s: RtcView, w: WiresView, offset: u32, size: u32, value: u32) -> (
        RtcView,
        WiresView,
        Result<(), BusError>,
    ) {
        s.write(w, offset, size, value)
    }

    open spec fn reset_of(s: RtcView, w: WiresView) -> (RtcView, WiresView) {
        (RtcView::fresh(s.bkp, false), w)
    }

    open spec fn tickable(s: RtcView, w: WiresView, cycles: u64) -> bool {
        s.room_for(cycles)
    }

    /// The wake-up timer runs in initialisation mode too, the calendar does not.
    open spec fn tick_of(s: RtcView, w: WiresView, cycles: u64) -> (RtcView, WiresView) {
        let (s1, w1) = s.advance_wakeup(w, cycles);
        if s1.init {
            (s1, w1)
        } else {
            s1.advance(w1, cycles)
        }
    }

    open spec fn label(s: RtcView) -> Seq<char> {
        "RTC"@
    }

    fn name(&self) -> &str {
        "RTC"
    }

    fn read(&mut self, w: &mut Wires, offset: u32, size: u32) -> Result<u32, BusError> {
        if size != 4 {
            return Err(BusError::NotImplemented);
        }
        if let Some(i) = Self::bkp_index(offset) {
            return Ok(self.bkp[i]);
        }
        match offset {
            OFF_TR => Ok(self.read_tr()),
            OFF_DR => Ok(self.read_dr()),
            OFF_CR => Ok(self.cr),
            OFF_ISR => {
                let mut v: u32 = self.isr_flags | if self.init {
                    ISR_INITF_INIT
                } else {
                    ISR_RSF
                };
                if self.initialized {
                    v = v | ISR_INITS;
                }
                if self.cr & CR_ALRAE == 0 {
                    v = v | ISR_ALRAWF;
                }
                if self.cr & CR_ALRBE == 0 {
                    v = v | ISR_ALRBWF;
                }
                if self.cr & CR_WUTE == 0 {
                    v = v | ISR_WUTWF;
                }
                Ok(v)
            },
            OFF_PRER => Ok(self.prer),
            OFF_WUTR => Ok(self.wutr),
            OFF_ALRMAR => Ok(self.alrmar),
            OFF_ALRMBR => Ok(self.alrmbr),
            OFF_SSR => Ok(self.ssr),
            OFF_ALRMASSR => Ok(self.alrmassr),
            OFF_ALRMBSSR => Ok(self.alrmbssr),
            OFF_CALIBR | OFF_SHIFTR | OFF_TSTR | OFF_TSDR | OFF_TSSSR | OFF_CALR | OFF_TAFCR
            | OFF_WPR => Ok(0),
            _ => Err(BusError::OutOfRange),
        }
    }

    fn write(&mut self, w: &mut Wires, offset: u32, size: u32, value: u32) -> Result<(), BusError> {
        if offset == OFF_WPR && (size == 1 || size == 4) {
            self.write_wpr(value);
            return Ok(());
        }
        if size != 4 {
            return Err(BusError::NotImplemented);
        }
        if let Some(i) = Self::bkp_index(offset) {
            if w.backup_writable {
                self.bkp[i] = value;
            }
            return Ok(());
        }
        match offset {
            OFF_TR | OFF_DR | OFF_PRER | OFF_WUTR | OFF_ALRMAR | OFF_ALRMBR | OFF_ALRMASSR
            | OFF_ALRMBSSR => {
                if self.unlocked {
                    self.write_protected(offset, value);
                }
                Ok(())
            },
            OFF_CR => {
                if self.unlocked {
                    self.write_cr(w, value);
                }
                Ok(())
            },
            OFF_ISR => {
                self.write_isr(w, value);
                Ok(())
            },
            OFF_CALIBR | OFF_SHIFTR | OFF_TSTR | OFF_TSDR | OFF_TSSSR | OFF_CALR | OFF_TAFCR => Ok(
                (),
            ),
            _ => Err(BusError::OutOfRange),
        }
    }

    fn reset(&mut self, w: &mut Wires) {
        self.time_s = RESET_TIME;
        self.accum = 0;
        self.cr = 0;
        self.isr_flags = 0;
        self.init = false;
        self.initialized = false;
        self.left_init = false;
        self.prer = PRER_RESET;
        self.ssr = 0xFF;
        self.wutr = 0xFFFF;
        self.wut_cnt = 0xFFFF;
        self.wut_accum = 0;
        self.alrmar = 0;
        self.alrmbr = 0;
        self.alrmassr = 0;
        self.alrmbssr = 0;
        self.wpr_step = 0;
        self.unlocked = false;
        self.active = false;
    }

    fn tick(&mut self, w: &mut Wires, cycles: u64) {
        let ghost s0 = self@;
        let ghost w0 = w@;
        self.advance_wakeup(w, cycles);
        proof {
            lemma_wakeup_frame(s0, w0, cycles);
        }
        if !self.init {
            self.advance(w, cycles);
        }
    }
}

proof fn lemma_wake_ticks_frame(s: RtcView, w: WiresView, n: int)
    ensures
        ({
            let t = s.wake_ticks(w, n).0;
            t == (RtcView { wut_cnt: t.wut_cnt, isr_flags: t.isr_flags, ..s })
        }),
    decreases n,
{
    if n > 0 {
        lemma_wake_ticks_frame(s, w, n - 1);
    }
}

/// The wake-up timer does not touch the calendar.
proof fn lemma_wakeup_frame(s: RtcView, w: WiresView, cycles: u64)
    ensures
        ({
            let t = s.advance_wakeup(w, cycles).0;
            t == (RtcView {
                wut_cnt: t.wut_cnt,
                isr_flags: t.isr_flags,
                wut_accum: t.wut_accum,
                ..s
            })
        }),
{
    let total = s.wut_accum + cycles;
    let p = wake_cycles(s.cr, s.prer);
    lemma_wake_ticks_frame(RtcView { wut_accum: (total % p) as u64, ..s }, w, total / p);
}

/// Two decimal digits survive the way through BCD.
pub proof fn law_bcd_roundtrip(v: int)
    requires
        0 <= v < 100,
    ensures
        bcd_value(bcd(v)) == v,
{
}

/// A count taken apart again.
proof fn lemma_count_splits(t: u64, days: int, hour: int, min: int, sec: int)
    requires
        t == days * 86400 + hour * 3600 + min * 60 + sec,
        0 <= hour < 24,
        0 <= min < 60,
        0 <= sec < 60,
        days >= 0,
    ensures
        t as int / 86400 == days,
        hms_of(t) == (sec, min, hour),
{
    let rem = hour * 3600 + min * 60 + sec;
    assert(t as int % 86400 == rem);
    assert(rem / 3600 == hour);
    assert(rem / 60 == hour * 60 + min);
    assert(rem % 60 == sec);
}

proof fn lemma_three_fields(a: int, b: int, c: int)
    requires
        0 <= a < 128,
        0 <= b < 128,
        0 <= c < 64,
    ensures
        ({
            let v = a + 0x100 * b + 0x1_0000 * c;
            v % 128 == a && (v / 0x100) % 128 == b && (v / 0x1_0000) % 64 == c
        }),
{
    let v = a + 0x100 * b + 0x1_0000 * c;
    assert(v / 0x100 == b + 0x100 * c);
    assert(v / 0x1_0000 == c);
}

/// The time fields of a register.
proof fn lemma_time_fields(hour: int, min: int, sec: int)
    requires
        0 <= hour < 24,
        0 <= min < 60,
        0 <= sec < 60,
    ensures
        ({
            let value = bcd(sec) + 0x100 * bcd(min) + 0x1_0000 * bcd(hour);
            &&& 0 <= value < 0x100_0000
            &&& bcd_value(value % 128) == sec
            &&& bcd_value((value / 0x100) % 128) == min
            &&& bcd_value((value / 0x1_0000) % 64) == hour
        }),
{
    assert(0 <= bcd(sec) < 0x5a && 0 <= bcd(min) < 0x5a && 0 <= bcd(hour) < 0x24);
    lemma_three_fields(bcd(sec), bcd(min), bcd(hour));
    law_bcd_roundtrip(sec);
    law_bcd_roundtrip(min);
    law_bcd_roundtrip(hour);
}

/// A time set in initialisation mode is the time that is read, and the date stays.
pub proof fn law_time_reads_back(s: RtcView, hour: int, min: int, sec: int)
    requires
        s.init,
        s.unlocked,
        0 <= hour < 24,
        0 <= min < 60,
        0 <= sec < 60,
        date_of(s.time_s).0 < 0x1_0000_0000,
    ensures
        ({
            let value = bcd(sec) + 0x100 * bcd(min) + 0x1_0000 * bcd(hour);
            let t = s.write_protected(OFF_TR, value as u32);
            &&& t.read(OFF_TR, 4) == Ok::<u32, BusError>(value as u32)
            &&& hms_of(t.time_s) == (sec, min, hour)
            &&& date_of(t.time_s) == date_of(s.time_s)
        }),
{
    let value = bcd(sec) + 0x100 * bcd(min) + 0x1_0000 * bcd(hour);
    lemma_time_fields(hour, min, sec);
    let t = s.write_tr(value as u32);
    lemma_write_tr(s, value as u32, hour, min, sec);
    assert(t.read(OFF_TR, 4) == Ok::<u32, BusError>(time_register(t.time_s) as u32));
}

proof fn lemma_write_tr(s: RtcView, value: u32, hour: int, min: int, sec: int)
    requires
        0 <= hour < 24,
        0 <= min < 60,
        0 <= sec < 60,
        date_of(s.time_s).0 < 0x1_0000_0000,
        bcd_value(value as int % 128) == sec,
        bcd_value((value as int / 0x100) % 128) == min,
        bcd_value((value as int / 0x1_0000) % 64) == hour,
    ensures
        hms_of(s.write_tr(value).time_s) == (sec, min, hour),
        date_of(s.write_tr(value).time_s) == date_of(s.time_s),
{
    let days = s.time_s as int / 86400;
    calendar::law_every_day_has_a_date(days + 10957);
    let (y, m, d) = date_of(s.time_s);
    lemma_year_positive(y, m, d, days);
    lemma_day_room(s.time_s, hour * 3600 + min * 60 + sec);
    let n = days * 86400 + hour * 3600 + min * 60 + sec;
    assert(seconds_of(y, m, d, hour, min, sec) == n);
    lemma_count_splits(n as u64, days, hour, min, sec);
}

/// The last day that the counter reaches is not counted to its end; no date of 32-bit years
/// comes near it.
proof fn lemma_day_room(t: u64, within: int)
    requires
        date_of(t).0 < 0x1_0000_0000,
        0 <= within < 86400,
    ensures
        t as int / 86400 * 86400 + within <= u64::MAX,
{
    let days = t as int / 86400;
    calendar::law_every_day_has_a_date(days + 10957);
    let (y, m, d) = date_of(t);
    lemma_year_positive(y, m, d, days);
    assert(calendar::day_number(y, m, d) <= 366 * y + 800) by {
        assert((y - 1) / 4 - (y - 1) / 100 + (y - 1) / 400 <= y);
    }
}

/// The date fields of a register.
proof fn lemma_date_fields(y: int, m: int, d: int)
    requires
        1 <= m <= 12,
        1 <= d <= 31,
        2000 <= y < 2100,
    ensures
        ({
            let value = bcd(d) + 0x100 * (m % 10) + 0x1000 * (m / 10) + 0x1_0000 * bcd(y - 2000);
            &&& 0 <= value < 0x100_0000
            &&& dr_day(value as u32) == d
            &&& dr_month(value as u32) == m
            &&& dr_year(value as u32) == y
        }),
{
    let yy = y - 2000;
    let value = bcd(d) + 0x100 * (m % 10) + 0x1000 * (m / 10) + 0x1_0000 * bcd(yy);
    assert(0 <= bcd(d) < 0x40 && 0 <= bcd(yy) < 0x9a);
    law_bcd_roundtrip(d);
    assert(value % 64 == bcd(d));
    assert(value / 0x100 == m % 10 + 0x10 * (m / 10) + 0x100 * bcd(yy));
    assert((value / 0x100) % 16 == m % 10);
    assert(value / 0x1000 == m / 10 + 0x10 * bcd(yy));
    assert((value / 0x1000) % 2 == m / 10);
    assert(value / 0x1_0000 == bcd(yy));
    assert(bcd(yy) % 16 == yy % 10);
    assert(value / 0x10_0000 == yy / 10);
}

/// The days of the years that two digits reach.
proof fn lemma_century(y: int, m: int, d: int)
    requires
        calendar::is_date(y, m, d),
        2000 <= y < 2100,
    ensures
        10957 <= calendar::day_number(y, m, d) < 50000,
        d <= 31,
{
    let p = y - 1;
    assert(p / 4 <= 524 && p / 400 <= 5 && p / 100 >= 19);
    assert(p / 4 >= 499);
    if y > 2000 {
        assert(p / 100 == 20 && p / 400 == 5 && p / 4 >= 500);
    } else {
        assert(p / 100 == 19 && p / 400 == 4);
    }
}

/// A date set in initialisation mode is the date that is read; the time of day stays.
pub proof fn law_date_reads_back(s: RtcView, y: int, m: int, d: int)
    requires
        s.init,
        s.unlocked,
        calendar::is_date(y, m, d),
        2000 <= y < 2100,
    ensures
        ({
            let value = bcd(d) + 0x100 * (m % 10) + 0x1000 * (m / 10) + 0x1_0000 * bcd(y - 2000);
            let t = s.write_protected(OFF_DR, value as u32);
            &&& date_of(t.time_s) == (y, m, d)
            &&& year_of(t.time_s) == y
            &&& t.read(OFF_DR, 4) == Ok::<u32, BusError>(
                (value + 0x2000 * weekday_of(t.time_s)) as u32,
            )
            &&& hms_of(t.time_s) == hms_of(s.time_s)
        }),
{
    let value = bcd(d) + 0x100 * (m % 10) + 0x1000 * (m / 10) + 0x1_0000 * bcd(y - 2000);
    lemma_century(y, m, d);
    lemma_date_fields(y, m, d);
    let t = s.write_dr(value as u32);
    lemma_write_dr(s, value as u32, y, m, d);
    assert(t.read(OFF_DR, 4) == Ok::<u32, BusError>(date_register(t.time_s) as u32));
    assert(date_register(t.time_s) == value + 0x2000 * weekday_of(t.time_s)) by {
        let yy = y - 2000;
        assert((yy / 10) % 0x1000 == yy / 10);
        assert(0x1_0000 * bcd(yy) == 0x10_0000 * (yy / 10) + 0x1_0000 * (yy % 10));
    }
}

proof fn lemma_write_dr(s: RtcView, value: u32, y: int, m: int, d: int)
    requires
        calendar::is_date(y, m, d),
        2000 <= y < 2100,
        dr_day(value) == d,
        dr_month(value) == m,
        dr_year(value) == y,
    ensures
        date_of(s.write_dr(value).time_s) == (y, m, d),
        year_of(s.write_dr(value).time_s) == y,
        hms_of(s.write_dr(value).time_s) == hms_of(s.time_s),
{
    lemma_century(y, m, d);
    let (sec, min, hour) = hms_of(s.time_s);
    let z = calendar::day_number(y, m, d);
    let n = (z - 10957) * 86400 + hour * 3600 + min * 60 + sec;
    lemma_count_splits(n as u64, z - 10957, hour, min, sec);
    calendar::law_civil_roundtrip(y, m, d);
}

/// While the clock is locked the protected registers and the control register keep what they
/// hold.
pub proof fn law_locked_writes_are_ignored(s: RtcView, w: WiresView, offset: u32, value: u32)
    requires
        !s.unlocked,
        RtcView::is_protected(offset) || offset == OFF_CR,
    ensures
        s.write(w, offset, 4, value) == (s, w, Ok::<(), BusError>(())),
{
}

/// The two key bytes unlock; any other byte locks again.
pub proof fn law_key_sequence(s: RtcView, a: u32, b: u32)
    requires
        s.wpr_step == 0,
    ensures
        s.write_wpr(0xCA).write_wpr(0x53).unlocked,
        a % 256 != 0xCA ==> !s.write_wpr(a).unlocked,
        b % 256 != 0x53 ==> !s.write_wpr(a).write_wpr(b).unlocked || b % 256 == 0xCA && a % 256
            != 0xCA && s.write_wpr(a).write_wpr(b).unlocked == s.write_wpr(a).unlocked,
{
}

/// The backup registers outlive a reset; without permission they keep what they hold, with
/// permission they read back what was written.
pub proof fn law_backup_registers(s: RtcView, w: WiresView, offset: u32, value: u32)
    requires
        s.bkp.len() == 20,
        is_backup(offset),
    ensures
        Rtc::reset_of(s, w).0.bkp == s.bkp,
        !w.backup_writable ==> s.write(w, offset, 4, value).0 == s,
        w.backup_writable ==> s.write(w, offset, 4, value).0.read(offset, 4) == Ok::<u32, BusError>(
            value,
        ),
{
}

/// Outside initialisation mode the count grows by one for each full second of cycles, and
/// what is left over is kept for the next tick.
pub proof fn law_ticks_count_seconds(s: RtcView, w: WiresView, cycles: u64)
    requires
        !s.init,
        s.room_for(cycles),
        cycles > 0,
    ensures
        ({
            let t = Rtc::tick_of(s, w, cycles).0;
            let p = second_cycles(s.prer);
            &&& t.time_s == s.time_s + (s.accum + cycles) / p
            &&& t.accum == (s.accum + cycles) % p
            &&& !t.init && t.prer == s.prer
        }),
{
    lemma_periods(s.cr, s.prer);
    lemma_wakeup_frame(s, w, cycles);
    let (s1, w1) = s.advance_wakeup(w, cycles);
    let p = second_cycles(s.prer);
    let total = s.accum + cycles;
    assert(0 <= total % p <= total && 0 <= total / p) by (nonlinear_arith)
        requires
            p > 0,
            total >= 0,
    ;
    lemma_seconds_frame(RtcView { accum: (total % p) as u64, ..s1 }, w1, total / p);
}

/// In initialisation mode the calendar stands still.
pub proof fn law_init_mode_freezes_the_calendar(s: RtcView, w: WiresView, cycles: u64)
    requires
        s.init,
    ensures
        Rtc::tick_of(s, w, cycles).0.time_s == s.time_s,
        Rtc::tick_of(s, w, cycles).0.accum == s.accum,
        Rtc::tick_of(s, w, cycles).0.ssr == s.ssr,
{
    lemma_wakeup_frame(s, w, cycles);
}

/// Leaving initialisation mode starts the clock, whatever was set in it: the calendar is no
/// longer frozen, it runs on from the count that was set, and the clock asks for ticks.
pub proof fn law_leaving_init_starts_the_clock(s: RtcView, w: WiresView, value: u32)
    requires
        s.init,
        s.unlocked,
        value & ISR_INIT == 0,
    ensures
        ({
            let t = s.write(w, OFF_ISR, 4, value).0;
            &&& t.active && t.left_init && !t.init
            &&& t.time_s == s.time_s && t.accum == 0
            &&& t.initialized == s.initialized
        }),
{
}

/// Once initialisation mode was left the clock asks for ticks until it is reset: no write and no
/// tick stops that.
pub proof fn law_clock_stays_active(
    s: RtcView,
    w: WiresView,
    offset: u32,
    size: u32,
    value: u32,
    cycles: u64,
)
    requires
        s.left_init,
        s.active,
        s.room_for(cycles),
    ensures
        s.write(w, offset, size, value).0.left_init,
        s.write(w, offset, size, value).0.active,
        Rtc::tick_of(s, w, cycles).0.left_init,
        Rtc::tick_of(s, w, cycles).0.active,
        !Rtc::reset_of(s, w).0.active,
{
    lemma_periods(s.cr, s.prer);
    lemma_wakeup_frame(s, w, cycles);
    let (s1, w1) = s.advance_wakeup(w, cycles);
    let p = second_cycles(s.prer);
    let total = s.accum + cycles;
    assert(0 <= total % p <= total && 0 <= total / p) by (nonlinear_arith)
        requires
            p > 0,
            total >= 0,
    ;
    if !s.init {
        lemma_seconds_frame(RtcView { accum: (total % p) as u64, ..s1 }, w1, total / p);
    }
}

/// Two ticks count as one tick of their sum.
pub proof fn law_ticks_add_up(s: RtcView, w: WiresView, a: u64, b: u64)
    requires
        !s.init,
        a > 0,
        b > 0,
        a + b <= u64::MAX,
        s.room_for((a + b) as u64),
        s.room_for(a),
        Rtc::tick_of(s, w, a).0.room_for(b),
    ensures
        ({
            let (s1, w1) = Rtc::tick_of(s, w, a);
            let once = Rtc::tick_of(s, w, (a + b) as u64).0;
            let twice = Rtc::tick_of(s1, w1, b).0;
            once.time_s == twice.time_s && once.accum == twice.accum
        }),
{
    let (s1, w1) = Rtc::tick_of(s, w, a);
    law_ticks_count_seconds(s, w, a);
    law_ticks_count_seconds(s, w, (a + b) as u64);
    law_ticks_count_seconds(s1, w1, b);
    let p = second_cycles(s.prer);
    lemma_periods(s.cr, s.prer);
    let x = s.accum + a;
    assert((x % p + b) / p + x / p == (x + b) / p && (x % p + b) % p == (x + b) % p) by {
        vstd::arithmetic::div_mod::lemma_fundamental_div_mod(x, p);
        let q = x / p;
        assert(x + b == (x % p + b) + p * q);
        vstd::arithmetic::div_mod::lemma_hoist_over_denominator(x % p + b, q, p as nat);
        vstd::arithmetic::div_mod::lemma_mod_multiples_vanish(q, x % p + b, p);
        assert(q * p == p * q) by (nonlinear_arith);
    }
}

/// The fields of an alarm register, each two decimal digits: seconds from bit 0, minutes from bit
/// 8, hours from bit 16. The top bit of a field's byte leaves the field out; bit 31 leaves the
/// day out, which bit 30 makes a weekday.
pub proof fn law_alarm_fields(reg: u32, t: u64)
    ensures
        alarm_matches(reg, t) <==> {
            &&& reg & 0x80 != 0 || reg % 16 + (reg / 0x10) % 8 * 10 == t % 60
            &&& reg & 0x8000 != 0 || (reg / 0x100) % 16 + (reg / 0x1000) % 8 * 10 == (t / 60) % 60
            &&& reg & 0x80_0000 != 0 || (reg / 0x1_0000) % 16 + (reg / 0x10_0000) % 4 * 10 == (t
                / 3600) % 24
            &&& reg & 0x8000_0000 != 0 || if reg & 0x4000_0000 != 0 {
                (reg / 0x2000) % 8 == (t / 86400 + 5) % 7 + 1
            } else {
                reg % 16 + (reg / 0x10) % 4 * 10 == date_of(t).2
            }
        },
{
    lemma_hms(t);
    lemma_alarm_digits(reg as int);
}

/// Second, minute and hour by division.
#[verifier::spinoff_prover]
proof fn lemma_hms(t: u64)
    ensures
        hms_of(t) == (t as int % 60, (t as int / 60) % 60, (t as int / 3600) % 24),
{
    let rem = t as int % 86400;
    let q = t as int / 86400;
    assert(t == q * 86400 + rem);
    assert(rem % 60 == t as int % 60);
    assert(t as int / 60 == q * 1440 + rem / 60);
    assert((rem / 60) % 60 == (t as int / 60) % 60);
    assert(t as int / 3600 == q * 24 + rem / 3600);
    assert(rem / 3600 == (t as int / 3600) % 24);
}

/// The digits of the fields of an alarm register.
#[verifier::spinoff_prover]
proof fn lemma_alarm_digits(x: int)
    requires
        0 <= x,
    ensures
        bcd_value(x % 128) == x % 16 + (x / 0x10) % 8 * 10,
        bcd_value((x / 0x100) % 128) == (x / 0x100) % 16 + (x / 0x1000) % 8 * 10,
        bcd_value((x / 0x1_0000) % 64) == (x / 0x1_0000) % 16 + (x / 0x10_0000) % 4 * 10,
        bcd_value(x % 64) == x % 16 + (x / 0x10) % 4 * 10,
{
    lemma_two_digits(x);
    lemma_two_digits(x / 0x100);
    lemma_two_digits(x / 0x1_0000);
    assert(x / 0x100 / 16 == x / 0x1000);
    assert(x / 0x1_0000 / 16 == x / 0x10_0000);
}

proof fn lemma_two_digits(y: int)
    requires
        0 <= y,
    ensures
        bcd_value(y % 128) == y % 16 + (y / 0x10) % 8 * 10,
        bcd_value(y % 64) == y % 16 + (y / 0x10) % 4 * 10,
{
    assert((y % 128) % 16 == y % 16 && (y % 128) / 16 == (y / 16) % 8);
    assert((y % 64) % 16 == y % 16 && (y % 64) / 16 == (y / 16) % 4);
}

/// What raising the flag of one alarm does to the flags.
proof fn lemma_alarm_flags(f: u32)
    ensures
        (f | 0x100) & 0x100 != 0,
        (f | 0x200) & 0x200 != 0,
        (f | 0x100) & 0x200 == f & 0x200,
        (f | 0x200) & 0x100 == f & 0x100,
        (f | 0x100) & 0x400 == f & 0x400,
        (f | 0x200) & 0x400 == f & 0x400,
        (f | 0x400) & 0x400 != 0,
        (f | 0x400) & 0x300 == f & 0x300,
{
    assert((f | 0x100) & 0x100 != 0 && (f | 0x200) & 0x200 != 0 && (f | 0x100) & 0x200 == f & 0x200
        && (f | 0x200) & 0x100 == f & 0x100 && (f | 0x100) & 0x400 == f & 0x400 && (f | 0x200)
        & 0x400 == f & 0x400 && (f | 0x400) & 0x400 != 0 && (f | 0x400) & 0x300 == f & 0x300)
        by (bit_vector);
}

/// In each second an enabled alarm whose fields fit raises its flag, and its line if that is
/// enabled too and the flag was down; the other alarm, and an alarm that does not fit, keep
/// their flags. The calendar goes on by one second either way.
pub proof fn law_alarms_go_off(s: RtcView, w: WiresView)
    requires
        s.time_s < u64::MAX,
    ensures
        ({
            let t = s.second(w).0;
            let now = (s.time_s + 1) as u64;
            let a = s.cr & 0x100 != 0 && alarm_matches(s.alrmar, now) && ss_matches(s.alrmassr, s.ssr);
            let b = s.cr & 0x200 != 0 && alarm_matches(s.alrmbr, now) && ss_matches(s.alrmbssr, s.ssr);
            let line = a && s.isr_flags & 0x100 == 0 && s.cr & 0x1000 != 0 || b && s.isr_flags & 0x200
                == 0 && s.cr & 0x2000 != 0;
            &&& t.time_s == now
            &&& t.isr_flags & 0x100 != 0 <==> s.isr_flags & 0x100 != 0 || a
            &&& t.isr_flags & 0x200 != 0 <==> s.isr_flags & 0x200 != 0 || b
            &&& t.isr_flags & 0x400 == s.isr_flags & 0x400
            &&& !line ==> s.second(w).1 == w
            &&& line ==> s.second(w).1 == w.pend(41) || s.second(w).1 == w.pend(41).pend(41)
        }),
{
    let s1 = RtcView { time_s: (s.time_s + 1) as u64, ..s };
    lemma_alarm_flags(s.isr_flags);
    lemma_alarm_flags(s1.check_alarm_a(w).0.isr_flags);
}

/// An alarm set to a time of day, with the day and the fractions left out, goes off in the second
/// in which the clock comes to that time, and in no other.
pub proof fn law_alarm_at_a_time_of_day(s: RtcView, w: WiresView, hour: int, min: int, sec: int)
    requires
        s.time_s < u64::MAX,
        0 <= hour < 24,
        0 <= min < 60,
        0 <= sec < 60,
        s.cr & 0x100 != 0,
        s.alrmar == 0x8000_0000 + 0x1_0000 * (hour / 10 * 16 + hour % 10) + 0x100 * (min / 10 * 16
            + min % 10) + (sec / 10 * 16 + sec % 10),
        s.alrmassr < 0x1000_0000,
    ensures
        s.second(w).0.isr_flags & 0x100 != 0 <==> s.isr_flags & 0x100 != 0 || (s.time_s + 1) % 86400
            == hour * 3600 + min * 60 + sec,
{
    let now = (s.time_s + 1) as u64;
    law_alarms_go_off(s, w);
    lemma_alarm_time(s.alrmar, now, hour, min, sec);
}

#[verifier::spinoff_prover]
proof fn lemma_alarm_time(reg: u32, now: u64, hour: int, min: int, sec: int)
    requires
        0 <= hour < 24,
        0 <= min < 60,
        0 <= sec < 60,
        reg == 0x8000_0000 + 0x1_0000 * (hour / 10 * 16 + hour % 10) + 0x100 * (min / 10 * 16 + min
            % 10) + (sec / 10 * 16 + sec % 10),
    ensures
        alarm_matches(reg, now) <==> now % 86400 == hour * 3600 + min * 60 + sec,
{
    lemma_alarm_word(reg, hour, min, sec);
    law_alarm_fields(reg, now);
    lemma_time_of_day(now as int, hour, min, sec);
}

#[verifier::spinoff_prover]
proof fn lemma_time_of_day(t: int, hour: int, min: int, sec: int)
    requires
        0 <= t,
        0 <= hour < 24,
        0 <= min < 60,
        0 <= sec < 60,
    ensures
        t % 86400 == hour * 3600 + min * 60 + sec <==> t % 60 == sec && (t / 60) % 60 == min && (t
            / 3600) % 24 == hour,
{
    let rem = t % 86400;
    let q = t / 86400;
    assert(t == q * 86400 + rem);
    assert(rem % 60 == t % 60);
    assert(t / 60 == q * 1440 + rem / 60);
    assert((rem / 60) % 60 == (t / 60) % 60);
    assert(t / 3600 == q * 24 + rem / 3600);
    assert(rem / 3600 == (t / 3600) % 24);
    assert(rem == rem / 3600 * 3600 + (rem / 60) % 60 * 60 + rem % 60);
}

/// The fields of an alarm register that was set to a time of day.
#[verifier::spinoff_prover]
proof fn lemma_alarm_word(reg: u32, hour: int, min: int, sec: int)
    requires
        0 <= hour < 24,
        0 <= min < 60,
        0 <= sec < 60,
        reg == 0x8000_0000 + 0x1_0000 * (hour / 10 * 16 + hour % 10) + 0x100 * (min / 10 * 16 + min
            % 10) + (sec / 10 * 16 + sec % 10),
    ensures
        reg & 0x80 == 0,
        reg & 0x8000 == 0,
        reg & 0x80_0000 == 0,
        reg & 0x8000_0000 != 0,
        reg % 16 + (reg / 0x10) % 8 * 10 == sec,
        (reg / 0x100) % 16 + (reg / 0x1000) % 8 * 10 == min,
        (reg / 0x1_0000) % 16 + (reg / 0x10_0000) % 4 * 10 == hour,
{
    let x = reg as int;
    let (h, m, c) = (hour / 10 * 16 + hour % 10, min / 10 * 16 + min % 10, sec / 10 * 16 + sec % 10);
    assert(0 <= h < 0x24 && 0 <= m < 0x5A && 0 <= c < 0x5A);
    assert(x / 0x80 == 0x100_0000 + 0x200 * h + 2 * m);
    assert(x / 0x8000 == 0x1_0000 + 2 * h);
    assert(x / 0x80_0000 == 0x100);
    assert((reg / 0x80) % 2 == 0 && (reg / 0x8000) % 2 == 0 && (reg / 0x80_0000) % 2 == 0 && reg
        / 0x8000_0000 == 1 ==> reg & 0x80 == 0 && reg & 0x8000 == 0 && reg & 0x80_0000 == 0 && reg
        & 0x8000_0000 != 0) by (bit_vector);
    assert(x % 16 == sec % 10 && (x / 16) % 8 == sec / 10) by {
        assert(x / 16 == 0x800_0000 + 0x1000 * h + 0x10 * m + sec / 10);
    }
    assert((x / 0x100) % 16 == min % 10 && (x / 0x1000) % 8 == min / 10) by {
        assert(x / 0x100 == 0x80_0000 + 0x100 * h + m);
        assert(x / 0x1000 == 0x8_0000 + 0x10 * h + min / 10);
    }
    assert((x / 0x1_0000) % 16 == hour % 10 && (x / 0x10_0000) % 4 == hour / 10) by {
        assert(x / 0x1_0000 == 0x8000 + h);
        assert(x / 0x10_0000 == 0x800 + hour / 10);
    }
}

/// A sub-second comparison leaves out as many low bits as its mask field says; field zero leaves
/// out everything.
pub proof fn law_subsecond_mask(reg: u32, ssr: u32)
    ensures
        reg < 0x1000_0000 ==> ss_matches(reg, ssr),
        reg >= 0x1000_0000 ==> (ss_matches(reg, ssr) <==> ssr >> (reg / 0x1000_0000) == (reg % 0x8000)
            >> (reg / 0x1000_0000)),
{
}

/// The prescalers: with the asynchronous one at `a` and the synchronous one at `s`, a second is
/// (a + 1) (s + 1) cycles, and the sub-second counter falls by one every a + 1 cycles from s on.
pub proof fn law_prescalers(x: RtcView, w: WiresView, a: int, s: int, cycles: u64)
    requires
        0 <= a < 128,
        0 <= s < 0x8000,
        x.prer == 0x1_0000 * a + s,
        !x.init,
        x.cr & 0x400 == 0,
        x.room_for(cycles),
        cycles > 0,
    ensures
        ({
            let t = Rtc::tick_of(x, w, cycles).0;
            let p = (a + 1) * (s + 1);
            &&& t.time_s == x.time_s + (x.accum + cycles) / p
            &&& t.ssr == s - ((x.accum + cycles) % p) / (a + 1)
        }),
{
    law_ticks_count_seconds(x, w, cycles);
    let p = (a + 1) * (s + 1);
    let v = x.prer as int;
    assert(v / 0x1_0000 == a && v % 0x8000 == s);
    assert(second_cycles(x.prer) == p);
    let rem = (x.accum + cycles) % p;
    assert(p > 0) by (nonlinear_arith)
        requires
            p == (a + 1) * (s + 1),
            a >= 0,
            s >= 0,
    ;
    assert(0 <= rem / (a + 1) <= s) by (nonlinear_arith)
        requires
            0 <= rem < p,
            p == (a + 1) * (s + 1),
            a >= 0,
            s >= 0,
    ;
}

/// The clock of the wake-up timer: 2, 4, 8 or 16 cycles, or a second and multiples of it.
pub proof fn law_wakeup_clock(cr: u32, prer: u32)
    ensures
        cr & 7 == 0 ==> wake_cycles(cr, prer) == 2,
        cr & 7 == 1 ==> wake_cycles(cr, prer) == 4,
        cr & 7 == 2 ==> wake_cycles(cr, prer) == 8,
        cr & 7 == 3 ==> wake_cycles(cr, prer) == 16,
        cr & 7 == 4 ==> wake_cycles(cr, prer) == second_cycles(prer),
        cr & 7 == 5 ==> wake_cycles(cr, prer) == 0x1_0000 * second_cycles(prer),
        cr & 7 == 6 ==> wake_cycles(cr, prer) == 0x100 * second_cycles(prer),
        cr & 7 == 7 ==> wake_cycles(cr, prer) == 0x10 * second_cycles(prer),
{
    bits::lemma_mask(cr, 7);
}

/// The wake-up timer counts down once for each of its clocks. It fires on the clock after it
/// reached zero, for the first time after as many clocks as it stands at and one more, and then
/// starts over from its reload value.
pub proof fn law_wakeup_fires_at_zero(s: RtcView, w: WiresView, n: int)
    requires
        0 <= n <= s.wut_cnt + 1,
    ensures
        ({
            let (t, v) = s.wake_ticks(w, n);
            &&& n <= s.wut_cnt ==> t.wut_cnt == s.wut_cnt - n && t.isr_flags == s.isr_flags && v == w
            &&& n == s.wut_cnt + 1 ==> {
                &&& t.isr_flags & 0x400 != 0 && t.isr_flags & 0x300 == s.isr_flags & 0x300
                &&& t.wut_cnt == s.wutr & 0xFFFF
                &&& v == if s.cr & 0x4000 != 0 {
                    w.pend(3)
                } else {
                    w
                }
            }
            &&& t.time_s == s.time_s && t.wutr == s.wutr && t.cr == s.cr
        }),
    decreases n,
{
    if n > 0 {
        law_wakeup_fires_at_zero(s, w, n - 1);
        lemma_alarm_flags(s.isr_flags);
    }
}

/// Cycles become clocks of the wake-up timer without loss: what is left over is kept. A timer
/// that is disabled does not move.
pub proof fn law_wakeup_counts_cycles(s: RtcView, w: WiresView, cycles: u64)
    requires
        s.cr & 0x400 != 0 ==> s.wut_accum + cycles <= u64::MAX,
    ensures
        s.cr & 0x400 == 0 ==> s.advance_wakeup(w, cycles) == (s, w),
        s.cr & 0x400 != 0 && cycles > 0 ==> ({
            let p = wake_cycles(s.cr, s.prer);
            let n = (s.wut_accum + cycles) / p;
            let rest = s.wut_accum + cycles - n * p;
            &&& 0 <= rest < p
            &&& s.advance_wakeup(w, cycles) == (RtcView { wut_accum: rest as u64, ..s }).wake_ticks(w, n)
        }),
{
    lemma_periods(s.cr, s.prer);
    let p = wake_cycles(s.cr, s.prer);
    let total = s.wut_accum + cycles;
    vstd::arithmetic::div_mod::lemma_fundamental_div_mod(total, p);
    vstd::arithmetic::div_mod::lemma_mod_bound(total, p);
    assert(p * (total / p) == total / p * p) by (nonlinear_arith);
}

/// Enabling the wake-up timer takes its flag down and loads the count.
pub proof fn law_enabling_wakeup_loads(s: RtcView, w: WiresView, value: u32)
    requires
        s.cr & 0x400 == 0,
        value & 0x0300_FF7F == value,
        value & 0x400 != 0,
        value & 0x300 == s.cr & 0x300,
        value & 0x100 == s.cr & 0x100,
        value & 0x200 == s.cr & 0x200,
    ensures
        ({
            let (t, v) = s.write_cr(w, value);
            &&& t.cr == value && v == w
            &&& t.wut_cnt == s.wutr & 0xFFFF && t.wut_accum == 0
            &&& t.isr_flags == s.isr_flags & !0x400u32
            &&& t.active
        }),
{
    bits::lemma_mask(value, 0x400);
    assert(value & 0x400 != 0 ==> value & 0x700 != 0) by (bit_vector);
    lemma_no_adjustment(value, s.time_s);
}

proof fn lemma_no_adjustment(value: u32, t: u64)
    requires
        value & 0x0300_FF7F == value,
    ensures
        RtcView::adjusted(t, value) == t,
{
    assert(value & 0x0300_FF7F == value ==> value & 0x1_0000 == 0 && value & 0x2_0000 == 0 && value
        & 0x4_0000 == 0 && value & 0x8_0000 == 0 && value & 0x10_0000 == 0 && value & 0x20_0000
        == 0) by (bit_vector);
}

/// The one-shot adjustments move the clock by an hour, a minute or a second, forward or back,
/// each once; a clock at either end of its range stays there.
pub proof fn law_adjustments(t: u64, value: u32)
    requires
        3661 <= t <= u64::MAX - 3661,
    ensures
        RtcView::adjusted(t, value) == t + (if value & 0x1_0000 != 0 {
            3600int
        } else {
            0
        }) - (if value & 0x2_0000 != 0 {
            3600int
        } else {
            0
        }) + (if value & 0x4_0000 != 0 {
            60int
        } else {
            0
        }) - (if value & 0x8_0000 != 0 {
            60int
        } else {
            0
        }) + (if value & 0x10_0000 != 0 {
            1int
        } else {
            0
        }) - (if value & 0x20_0000 != 0 {
            1int
        } else {
            0
        }),
{
}

/// What the flag register shows besides the flags themselves: the mode, whether the date was
/// set, and which of the alarms and the wake-up timer may be set up.
pub proof fn law_status_bits(s: RtcView)
    requires
        s.isr_flags & !0x700u32 == 0,
    ensures
        s.isr() & 0x40 != 0 <==> s.init,
        s.isr() & 0x80 != 0 <==> s.init,
        s.isr() & 0x20 != 0 <==> !s.init,
        s.isr() & 0x10 != 0 <==> s.initialized,
        s.isr() & 1 != 0 <==> s.cr & 0x100 == 0,
        s.isr() & 2 != 0 <==> s.cr & 0x200 == 0,
        s.isr() & 4 != 0 <==> s.cr & 0x400 == 0,
        s.isr() & 0x700 == s.isr_flags & 0x700,
{
    let f = s.isr_flags;
    let i = if s.init {
        0xC0u32
    } else {
        0x20u32
    };
    let n = if s.initialized {
        0x10u32
    } else {
        0u32
    };
    let a = if s.cr & 0x100 == 0 {
        1u32
    } else {
        0u32
    };
    let b = if s.cr & 0x200 == 0 {
        2u32
    } else {
        0u32
    };
    let c = if s.cr & 0x400 == 0 {
        4u32
    } else {
        0u32
    };
    bits::lemma_mask(f | i, 0);
    bits::lemma_mask(f | i | n, 0);
    bits::lemma_mask(f | i | n | a, 0);
    bits::lemma_mask(f | i | n | a | b, 0);
    let v = f | i | n | a | b | c;
    assert(s.isr() == v);
    assert(v == f | i | n | a | b | c && f & !0x700u32 == 0 && (i == 0xC0 || i == 0x20) && (n == 0x10
        || n == 0) && (a == 1 || a == 0) && (b == 2 || b == 0) && (c == 4 || c == 0) ==> (v & 0x40
        != 0 <==> i == 0xC0) && (v & 0x80 != 0 <==> i == 0xC0) && (v & 0x20 != 0 <==> i == 0x20) && (
    v & 0x10 != 0 <==> n == 0x10) && (v & 1 != 0 <==> a == 1) && (v & 2 != 0 <==> b == 2) && (v & 4
        != 0 <==> c == 4) && v & 0x700 == f & 0x700) by (bit_vector);
}

/// The alarm registers and the reload value can be set only while what uses them is disabled, and
/// then hold what was written; a written zero takes a flag down, a written one leaves it.
pub proof fn law_alarm_registers(s: RtcView, w: WiresView, value: u32)
    requires
        s.unlocked,
    ensures
        s.write(w, 0x1C, 4, value).0.alrmar == if s.cr & 0x100 == 0 {
            value
        } else {
            s.alrmar
        },
        s.write(w, 0x20, 4, value).0.alrmbr == if s.cr & 0x200 == 0 {
            value
        } else {
            s.alrmbr
        },
        s.write(w, 0x44, 4, value).0.alrmassr == if s.cr & 0x100 == 0 {
            value
        } else {
            s.alrmassr
        },
        s.write(w, 0x48, 4, value).0.alrmbssr == if s.cr & 0x200 == 0 {
            value
        } else {
            s.alrmbssr
        },
        s.write(w, 0x14, 4, value).0.wutr == if s.cr & 0x400 == 0 {
            value % 0x1_0000
        } else {
            s.wutr
        },
        !s.init && value & 0x80 == 0 ==> s.write(w, 0x0C, 4, value).0.isr_flags == s.isr_flags & (
        value & 0x700),
        !s.init ==> s.write(w, 0, 4, value).0 == s && s.write(w, 4, 4, value).0 == s && s.write(
            w,
            0x10,
            4,
            value,
        ).0 == s,
        s.init ==> s.write(w, 0x10, 4, value).0.prer == value & 0x007F_7FFF,
{
}

/// An alarm is compared at once when it is enabled, and both are when initialisation mode is left;
/// one that is enabled already is not compared again by a write to the control register.
pub proof fn law_alarms_are_compared_at_once(s: RtcView, w: WiresView, value: u32)
    requires
        s.cr & 0x400 == 0,
        value & 0x0300_FF7F == value,
        value & 0x400 == 0,
    ensures
        ({
            let t = s.write_cr(w, value).0;
            let a = alarm_matches(s.alrmar, s.time_s) && ss_matches(s.alrmassr, s.ssr);
            let b = alarm_matches(s.alrmbr, s.time_s) && ss_matches(s.alrmbssr, s.ssr);
            &&& t.time_s == s.time_s && t.cr == value
            &&& s.cr & 0x100 == 0 && value & 0x100 != 0 && a ==> t.isr_flags & 0x100 != 0
            &&& s.cr & 0x200 == 0 && value & 0x200 != 0 && b ==> t.isr_flags & 0x200 != 0
            &&& !a && !b ==> t.isr_flags == s.isr_flags && s.write_cr(w, value).1 == w
            &&& s.cr & 0x100 == value & 0x100 && s.cr & 0x200 == value & 0x200 ==> t.isr_flags
                == s.isr_flags && s.write_cr(w, value).1 == w
        }),
        ({
            let t = s.exit_init(w).0;
            let a = s.cr & 0x100 != 0 && alarm_matches(s.alrmar, s.time_s) && ss_matches(
                s.alrmassr,
                s.prer % 0x8000,
            );
            let b = s.cr & 0x200 != 0 && alarm_matches(s.alrmbr, s.time_s) && ss_matches(
                s.alrmbssr,
                s.prer % 0x8000,
            );
            &&& t.isr_flags & 0x100 != 0 <==> s.isr_flags & 0x100 != 0 || a
            &&& t.isr_flags & 0x200 != 0 <==> s.isr_flags & 0x200 != 0 || b
            &&& !t.init && t.time_s == s.time_s && t.accum == 0
        }),
{
    lemma_no_adjustment(value, s.time_s);
    let s1 = RtcView { cr: value, ..s };
    let f = s.isr_flags;
    lemma_alarm_flags(f);
    lemma_alarm_flags(s1.check_alarm_a(w).0.isr_flags);
    lemma_alarm_flags(s1.check_alarms(w).0.isr_flags);
    lemma_alarm_flags(s1.check_alarms(w).0.check_alarm_a(s1.check_alarms(w).1).0.isr_flags);
    let s2 = RtcView {
        init: false,
        left_init: true,
        accum: 0,
        ssr: s.prer % 0x8000,
        ..s
    }.sync_active();
    lemma_alarm_flags(s2.check_alarm_a(w).0.isr_flags);
}

} // verus!
