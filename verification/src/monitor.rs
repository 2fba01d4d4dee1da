//! The commands of the interactive monitor.
//!
//! ```text
//! help                        the list of commands
//! regs                        the registers
//! read <addr> [len]           memory, 16 bytes unless a length is given
//! write <addr> <val>          a word of memory
//! step [n]                    n small steps, one unless a number is given
//! run [insns]                 a larger budget
//! break <addr>                sets a breakpoint
//! break del <addr>            deletes a breakpoint
//! break list                  lists the breakpoints
//! show devices                the devices on the bus
//! show irq                    the pending interrupts
//! trace on|off|dump|clear     the bus trace
//! reset                       resets the machine
//! quit, exit                  ends the session
//! ```
use crate::peripheral::nvic::{NVIC_IRQ_COUNT, Nvic, NvicView};
use crate::text;
use vstd::prelude::*;
use vstd::slice::slice_subrange;

verus! {

/// The budget of one step.
pub const STEP_BUDGET: usize = 200;

/// The budget of `run` without a number.
pub const RUN_DEFAULT: usize = 10_000;

/// The longest stretch that `read` shows.
pub const READ_MAX: usize = 256;

/// What happens to the bus trace.
#[derive(Debug, Clone, Copy, PartialEq, Eq, Structural)]
pub enum TraceOp {
    On,
    Off,
    Dump,
    Clear,
}

/// What a command asks for. Breakpoints are kept by the monitor itself; those commands say
/// what was done.
#[derive(Debug, Clone, Copy, PartialEq, Eq, Structural)]
pub enum Action {
    /// An empty line.
    Nothing,
    Help,
    Regs,
    Read { addr: u32, len: usize },
    Write { addr: u32, value: u32 },
    Step { count: usize },
    Run { budget: usize },
    BreakDeleted { addr: u32 },
    BreakList,
    BreakSet { addr: u32 },
    ShowDevices,
    ShowIrq,
    Trace(TraceOp),
    Reset,
    Quit,
}

/// How a run of steps goes on.
#[derive(Debug, Clone, Copy, PartialEq, Eq, Structural)]
pub enum StepGo {
    /// All steps were made.
    Done,
    /// There is a breakpoint here.
    Hit,
    /// One more step.
    Run { budget: usize },
}

/// A command that lacks something, or has something that it does not know.
#[derive(Debug, Clone, Copy, PartialEq, Eq, Structural)]
pub enum Usage {
    ReadAddr,
    WriteAddr,
    WriteValue,
    BreakDelAddr,
    Break,
    Show,
    Trace,
}

/// Why a command was refused.
#[derive(Debug, PartialEq, Eq)]
pub enum MonitorError {
    Usage(Usage),
    /// No number.
    BadNumber(String),
    /// No command of that name.
    Unknown(String),
}

/// An error as a value of the model.
pub enum ErrorView {
    Usage(Usage),
    BadNumber(Seq<char>),
    Unknown(Seq<char>),
}

impl View for MonitorError {
    type V = ErrorView;

    open spec fn view(&self) -> ErrorView {
        match *self {
            MonitorError::Usage(u) => ErrorView::Usage(u),
            MonitorError::BadNumber(s) => ErrorView::BadNumber(s@),
            MonitorError::Unknown(s) => ErrorView::Unknown(s@),
        }
    }
}

/// A result as a value of the model.
pub open spec fn outcome<T>(r: Result<T, MonitorError>) -> Result<T, ErrorView> {
    match r {
        Ok(v) => Ok(v),
        Err(e) => Err(e@),
    }
}

/// A number in decimal, or in hexadecimal after `0x`.
pub open spec fn number(s: Seq<char>) -> Option<u32> {
    let t = text::trimmed(s);
    let v = if text::begins(t, "0x"@) || text::begins(t, "0X"@) {
        text::unsigned(t.skip(2), 16, u32::MAX as int)
    } else {
        text::unsigned(t, 10, u32::MAX as int)
    };
    match v {
        Some(v) => Some(v as u32),
        None => None,
    }
}

/// The number, or the refusal that repeats the text.
pub open spec fn number_or(s: Seq<char>) -> Result<u32, ErrorView> {
    match number(s) {
        Some(v) => Ok(v),
        None => Err(ErrorView::BadNumber(text::trimmed(s))),
    }
}

/// Reads a number in decimal, or in hexadecimal after `0x`.
pub fn parse_u32(s: &[char]) -> (r: Result<u32, MonitorError>)
    ensures
        outcome(r) == number_or(s@),
{
    proof {
        reveal_strlit("0x");
        reveal_strlit("0X");
    }
    let t = text::trim(s);
    let v = if text::begins_with(t, "0x") || text::begins_with(t, "0X") {
        let hex = slice_subrange(t, 2, t.len());
        assert(hex@ =~= t@.skip(2));
        text::parse_unsigned(hex, 16, u32::MAX as u64)
    } else {
        text::parse_unsigned(t, 10, u32::MAX as u64)
    };
    match v {
        Some(v) => Ok(v as u32),
        None => Err(MonitorError::BadNumber(text::text_of(t))),
    }
}

/// A count in decimal; `default` where there is none, or what stands there is no number.
pub open spec fn count_or(args: Seq<Seq<char>>, i: int, default: usize) -> usize {
    if i < args.len() {
        match text::unsigned(args[i], 10, usize::MAX as int) {
            Some(v) => v as usize,
            None => default,
        }
    } else {
        default
    }
}

/// The length of a stretch to show: at least 1, at most 256.
pub open spec fn shown_len(n: usize) -> usize {
    if n < 1 {
        1
    } else if n > READ_MAX {
        READ_MAX
    } else {
        n
    }
}

/// The breakpoints without those at an address.
pub open spec fn without(s: Seq<u32>, addr: u32) -> Seq<u32>
    decreases s.len(),
{
    if s.len() == 0 {
        s
    } else if s.last() == addr {
        without(s.drop_last(), addr)
    } else {
        without(s.drop_last(), addr).push(s.last())
    }
}

/// The breakpoints with one at an address; none is there twice.
pub open spec fn with(s: Seq<u32>, addr: u32) -> Seq<u32> {
    if s.contains(addr) {
        s
    } else {
        s.push(addr)
    }
}

/// What a line does to the breakpoints, and what it asks for. `w` are the words of the line.
pub open spec fn command(breaks: Seq<u32>, w: Seq<Seq<char>>) -> (Seq<u32>, Result<
    Action,
    ErrorView,
>) {
    if w.len() == 0 {
        (breaks, Ok(Action::Nothing))
    } else if w[0] == "help"@ || w[0] == "?"@ {
        (breaks, Ok(Action::Help))
    } else if w[0] == "regs"@ {
        (breaks, Ok(Action::Regs))
    } else if w[0] == "read"@ {
        (
            breaks,
            if w.len() < 2 {
                Err(ErrorView::Usage(Usage::ReadAddr))
            } else {
                match number_or(w[1]) {
                    Ok(addr) => Ok(Action::Read { addr, len: shown_len(count_or(w, 2, 16)) }),
                    Err(e) => Err(e),
                }
            },
        )
    } else if w[0] == "write"@ {
        (
            breaks,
            if w.len() < 2 {
                Err(ErrorView::Usage(Usage::WriteAddr))
            } else {
                match number_or(w[1]) {
                    Ok(addr) => if w.len() < 3 {
                        Err(ErrorView::Usage(Usage::WriteValue))
                    } else {
                        match number_or(w[2]) {
                            Ok(value) => Ok(Action::Write { addr, value }),
                            Err(e) => Err(e),
                        }
                    },
                    Err(e) => Err(e),
                }
            },
        )
    } else if w[0] == "step"@ {
        (breaks, Ok(Action::Step { count: count_or(w, 1, 1) }))
    } else if w[0] == "run"@ {
        (breaks, Ok(Action::Run { budget: count_or(w, 1, RUN_DEFAULT) }))
    } else if w[0] == "break"@ {
        break_command(breaks, w)
    } else if w[0] == "show"@ {
        (
            breaks,
            if w.len() >= 2 && w[1] == "devices"@ {
                Ok(Action::ShowDevices)
            } else if w.len() >= 2 && w[1] == "irq"@ {
                Ok(Action::ShowIrq)
            } else {
                Err(ErrorView::Usage(Usage::Show))
            },
        )
    } else if w[0] == "trace"@ {
        (
            breaks,
            if w.len() >= 2 && w[1] == "on"@ {
                Ok(Action::Trace(TraceOp::On))
            } else if w.len() >= 2 && w[1] == "off"@ {
                Ok(Action::Trace(TraceOp::Off))
            } else if w.len() >= 2 && w[1] == "dump"@ {
                Ok(Action::Trace(TraceOp::Dump))
            } else if w.len() >= 2 && w[1] == "clear"@ {
                Ok(Action::Trace(TraceOp::Clear))
            } else {
                Err(ErrorView::Usage(Usage::Trace))
            },
        )
    } else if w[0] == "reset"@ {
        (breaks, Ok(Action::Reset))
    } else if w[0] == "quit"@ || w[0] == "exit"@ {
        (breaks, Ok(Action::Quit))
    } else {
        (breaks, Err(ErrorView::Unknown(w[0])))
    }
}

/// A breakpoint command.
pub open spec fn break_command(breaks: Seq<u32>, w: Seq<Seq<char>>) -> (Seq<u32>, Result<
    Action,
    ErrorView,
>) {
    if w.len() < 2 {
        (breaks, Err(ErrorView::Usage(Usage::Break)))
    } else if w[1] == "del"@ {
        if w.len() < 3 {
            (breaks, Err(ErrorView::Usage(Usage::BreakDelAddr)))
        } else {
            match number_or(w[2]) {
                Ok(addr) => (without(breaks, addr), Ok(Action::BreakDeleted { addr })),
                Err(e) => (breaks, Err(e)),
            }
        }
    } else if w[1] == "list"@ {
        (breaks, Ok(Action::BreakList))
    } else {
        match number_or(w[1]) {
            Ok(addr) => (with(breaks, addr), Ok(Action::BreakSet { addr })),
            Err(e) => (breaks, Err(e)),
        }
    }
}

/// The monitor.
pub struct Monitor {
    pub breaks: Vec<u32>,
}

fn usage(u: Usage) -> (r: Result<Action, MonitorError>)
    ensures
        outcome(r) == Err::<Action, ErrorView>(ErrorView::Usage(u)),
{
    Err(MonitorError::Usage(u))
}

/// Is word `i` the text?
fn word_is(w: &Vec<Vec<char>>, i: usize, t: &str) -> (r: bool)
    ensures
        r == (i < w@.len() && text::texts(w@)[i as int] == t@),
{
    i < w.len() && text::is_text(w[i].as_slice(), t)
}

fn count(w: &Vec<Vec<char>>, i: usize, default: usize) -> (r: usize)
    ensures
        r == count_or(text::texts(w@), i as int, default),
{
    if i < w.len() {
        match text::parse_unsigned(w[i].as_slice(), 10, usize::MAX as u64) {
            Some(v) => v as usize,
            None => default,
        }
    } else {
        default
    }
}

impl Monitor {
    pub fn new() -> (r: Self)
        ensures
            r.breaks@ == Seq::<u32>::empty(),
    {
        Monitor { breaks: Vec::new() }
    }

    /// How a run of steps goes on at `pc`, with `left` steps to make.
    pub fn next_step(&self, left: usize, pc: u32) -> (r: StepGo)
        ensures
            r == if left == 0 {
                StepGo::Done
            } else if self.breaks@.contains(pc) {
                StepGo::Hit
            } else {
                StepGo::Run { budget: STEP_BUDGET }
            },
    {
        if left == 0 {
            StepGo::Done
        } else if self.stops_at(pc) {
            StepGo::Hit
        } else {
            StepGo::Run { budget: STEP_BUDGET }
        }
    }

    /// Is there a breakpoint at the address? A step stops there.
    pub fn stops_at(&self, pc: u32) -> (r: bool)
        ensures
            r == self.breaks@.contains(pc),
    {
        let mut i: usize = 0;
        while i < self.breaks.len()
            invariant
                i <= self.breaks@.len(),
                forall|k: int| 0 <= k < i ==> self.breaks@[k] != pc,
            decreases self.breaks@.len() - i,
        {
            if self.breaks[i] == pc {
                assert(self.breaks@[i as int] == pc);
                return true;
            }
            i = i + 1;
        }
        false
    }

    fn delete(&mut self, addr: u32)
        ensures
            final(self).breaks@ == without(old(self).breaks@, addr),
    {
        let mut kept: Vec<u32> = Vec::new();
        let mut i: usize = 0;
        assert(self.breaks@.take(0) =~= Seq::<u32>::empty());
        while i < self.breaks.len()
            invariant
                i <= self.breaks@.len(),
                self.breaks@ == old(self).breaks@,
                kept@ == without(self.breaks@.take(i as int), addr),
            decreases self.breaks@.len() - i,
        {
            assert(self.breaks@.take(i + 1).drop_last() =~= self.breaks@.take(i as int));
            if self.breaks[i] != addr {
                kept.push(self.breaks[i]);
            }
            i = i + 1;
        }
        assert(self.breaks@.take(self.breaks@.len() as int) =~= self.breaks@);
        self.breaks = kept;
    }

    /// Carries out a line as far as it concerns the breakpoints, and says what else it asks
    /// for.
    pub fn execute(&mut self, line: &str) -> (r: Result<Action, MonitorError>)
        ensures
            (final(self).breaks@, outcome(r)) == command(old(self).breaks@, text::words(line@)),
    {
        let cs = text::chars_of(line);
        let w = text::split_words(cs.as_slice());
        if w.len() == 0 {
            Ok(Action::Nothing)
        } else if word_is(&w, 0, "help") || word_is(&w, 0, "?") {
            Ok(Action::Help)
        } else if word_is(&w, 0, "regs") {
            Ok(Action::Regs)
        } else if word_is(&w, 0, "read") {
            if w.len() < 2 {
                return usage(Usage::ReadAddr);
            }
            match parse_u32(w[1].as_slice()) {
                Ok(addr) => {
                    let n = count(&w, 2, 16);
                    let len = if n < 1 {
                        1
                    } else if n > READ_MAX {
                        READ_MAX
                    } else {
                        n
                    };
                    Ok(Action::Read { addr, len })
                },
                Err(e) => Err(e),
            }
        } else if word_is(&w, 0, "write") {
            Self::write_action(&w)
        } else if word_is(&w, 0, "step") {
            Ok(Action::Step { count: count(&w, 1, 1) })
        } else if word_is(&w, 0, "run") {
            Ok(Action::Run { budget: count(&w, 1, RUN_DEFAULT) })
        } else if word_is(&w, 0, "break") {
            self.break_action(&w)
        } else if word_is(&w, 0, "show") {
            if word_is(&w, 1, "devices") {
                Ok(Action::ShowDevices)
            } else if word_is(&w, 1, "irq") {
                Ok(Action::ShowIrq)
            } else {
                usage(Usage::Show)
            }
        } else if word_is(&w, 0, "trace") {
            if word_is(&w, 1, "on") {
                Ok(Action::Trace(TraceOp::On))
            } else if word_is(&w, 1, "off") {
                Ok(Action::Trace(TraceOp::Off))
            } else if word_is(&w, 1, "dump") {
                Ok(Action::Trace(TraceOp::Dump))
            } else if word_is(&w, 1, "clear") {
                Ok(Action::Trace(TraceOp::Clear))
            } else {
                usage(Usage::Trace)
            }
        } else if word_is(&w, 0, "reset") {
            Ok(Action::Reset)
        } else if word_is(&w, 0, "quit") || word_is(&w, 0, "exit") {
            Ok(Action::Quit)
        } else {
            Err(MonitorError::Unknown(text::text_of(w[0].as_slice())))
        }
    }

    fn write_action(w: &Vec<Vec<char>>) -> (r: Result<Action, MonitorError>)
        requires
            w@.len() > 0,
            text::texts(w@)[0] == "write"@,
        ensures
            ({
                let t = text::texts(w@);
                outcome(r) == if t.len() < 2 {
                    Err(ErrorView::Usage(Usage::WriteAddr))
                } else {
                    match number_or(t[1]) {
                        Ok(addr) => if t.len() < 3 {
                            Err(ErrorView::Usage(Usage::WriteValue))
                        } else {
                            match number_or(t[2]) {
                                Ok(value) => Ok(Action::Write { addr, value }),
                                Err(e) => Err(e),
                            }
                        },
                        Err(e) => Err(e),
                    }
                }
            }),
    {
        if w.len() < 2 {
            return usage(Usage::WriteAddr);
        }
        let addr = match parse_u32(w[1].as_slice()) {
            Ok(addr) => addr,
            Err(e) => {
                return Err(e);
            },
        };
        if w.len() < 3 {
            return usage(Usage::WriteValue);
        }
        match parse_u32(w[2].as_slice()) {
            Ok(value) => Ok(Action::Write { addr, value }),
            Err(e) => Err(e),
        }
    }

    fn break_action(&mut self, w: &Vec<Vec<char>>) -> (r: Result<Action, MonitorError>)
        ensures
            (final(self).breaks@, outcome(r)) == break_command(
                old(self).breaks@,
                text::texts(w@),
            ),
    {
        if w.len() < 2 {
            return usage(Usage::Break);
        }
        if word_is(w, 1, "del") {
            if w.len() < 3 {
                return usage(Usage::BreakDelAddr);
            }
            match parse_u32(w[2].as_slice()) {
                Ok(addr) => {
                    self.delete(addr);
                    Ok(Action::BreakDeleted { addr })
                },
                Err(e) => Err(e),
            }
        } else if word_is(w, 1, "list") {
            Ok(Action::BreakList)
        } else {
            match parse_u32(w[1].as_slice()) {
                Ok(addr) => {
                    if !self.stops_at(addr) {
                        self.breaks.push(addr);
                    }
                    Ok(Action::BreakSet { addr })
                },
                Err(e) => Err(e),
            }
        }
    }
}

/// The pending interrupts below `n`, each with whether it is enabled and its priority.
pub open spec fn pending_below(v: NvicView, n: int) -> Seq<(u32, bool, u8)>
    decreases n,
{
    if n <= 0 {
        Seq::empty()
    } else {
        let rest = pending_below(v, n - 1);
        if v.is_pending(n - 1) {
            rest.push(((n - 1) as u32, v.is_enabled(n - 1), v.irq_priority(n - 1)))
        } else {
            rest
        }
    }
}

/// The pending interrupts, each with whether it is enabled and its priority.
pub fn pending_irqs(nvic: &Nvic) -> (r: Vec<(u32, bool, u8)>)
    ensures
        r@ == pending_below(nvic@, NVIC_IRQ_COUNT as int),
{
    let mut r: Vec<(u32, bool, u8)> = Vec::new();
    let mut irq: u32 = 0;
    while irq < 82
        invariant
            irq <= 82,
            r@ == pending_below(nvic@, irq as int),
        decreases 82 - irq,
    {
        if nvic.is_pending(irq) {
            r.push((irq, nvic.is_enabled(irq), nvic.priority(irq)));
        }
        irq = irq + 1;
    }
    r
}

/// A breakpoint that was set stops the processor until it is deleted, and the others stay as
/// they are. No address is listed twice.
pub proof fn law_breakpoints(s: Seq<u32>, addr: u32, other: u32)
    requires
        s.no_duplicates(),
    ensures
        with(s, addr).contains(addr),
        !without(s, addr).contains(addr),
        other != addr ==> with(s, addr).contains(other) == s.contains(other),
        other != addr ==> without(s, addr).contains(other) == s.contains(other),
        with(s, addr).no_duplicates(),
        without(s, addr).no_duplicates(),
{
    lemma_without(s, addr, addr);
    lemma_without(s, addr, other);
    if !s.contains(addr) {
        let t = s.push(addr);
        assert(t[s.len() as int] == addr);
        if s.contains(other) {
            let i = choose|i: int| 0 <= i < s.len() && s[i] == other;
            assert(t[i] == other);
        }
    }
}

proof fn lemma_without(s: Seq<u32>, addr: u32, other: u32)
    requires
        s.no_duplicates(),
    ensures
        without(s, addr).contains(other) == (other != addr && s.contains(other)),
        without(s, addr).no_duplicates(),
        forall|x: u32| without(s, addr).contains(x) ==> s.contains(x),
    decreases s.len(),
{
    if s.len() > 0 {
        let f = s.drop_last();
        lemma_without(f, addr, other);
        let t = without(f, addr);
        assert(s.contains(s.last()));
        assert forall|x: u32| f.contains(x) implies s.contains(x) by {
            let i = choose|i: int| 0 <= i < f.len() && f[i] == x;
            assert(s[i] == x);
        }
        if s.contains(other) {
            let i = choose|i: int| 0 <= i < s.len() && s[i] == other;
            if i < f.len() {
                assert(f[i] == other);
            }
        }
        if s.last() != addr {
            let u = t.push(s.last());
            assert(u[t.len() as int] == s.last());
            if t.contains(other) {
                let i = choose|i: int| 0 <= i < t.len() && t[i] == other;
                assert(u[i] == other);
            }
            assert forall|x: u32| u.contains(x) implies s.contains(x) by {
                let i = choose|i: int| 0 <= i < u.len() && u[i] == x;
                if i < t.len() {
                    assert(t.contains(x)) by {
                        assert(t[i] == x);
                    }
                }
            }
            assert forall|i: int, j: int| 0 <= i < u.len() && 0 <= j < u.len() && i != j implies u[i]
                != u[j] by {
                if i < t.len() && j == t.len() {
                    assert(t.contains(t[i])) by {
                        assert(t[i] == t[i]);
                    }
                    assert(f.contains(t[i]));
                    let k = choose|k: int| 0 <= k < f.len() && f[k] == t[i];
                    assert(s[k] != s[s.len() - 1]);
                }
                if j < t.len() && i == t.len() {
                    assert(t.contains(t[j])) by {
                        assert(t[j] == t[j]);
                    }
                    assert(f.contains(t[j]));
                    let k = choose|k: int| 0 <= k < f.len() && f[k] == t[j];
                    assert(s[k] != s[s.len() - 1]);
                }
            }
        }
    }
}

/// A number in hexadecimal, with at least `width` digits.
pub open spec fn hex_number(n: nat, width: nat) -> Seq<char>
    decreases n + width,
{
    if n < 16 && width <= 1 {
        seq![text::hex_digit(n as int)]
    } else {
        hex_number(
            n / 16,
            if width == 0 {
                0
            } else {
                (width - 1) as nat
            },
        ).push(text::hex_digit(n as int % 16))
    }
}

/// A byte in hexadecimal.
pub open spec fn hex_byte(b: u8) -> Seq<char> {
    seq![text::hex_digit(b as int / 16), text::hex_digit(b as int % 16)]
}

/// Bytes in hexadecimal, with a space between two of them.
pub open spec fn hex_row(row: Seq<u8>) -> Seq<char>
    decreases row.len(),
{
    if row.len() == 0 {
        Seq::empty()
    } else if row.len() == 1 {
        hex_byte(row[0])
    } else {
        hex_row(row.drop_last()).push(' ') + hex_byte(row.last())
    }
}

/// The character that a byte stands for; a dot, if it cannot be printed.
pub open spec fn printed(b: u8) -> char {
    if 0x20 <= b < 0x7F {
        b as char
    } else {
        '.'
    }
}

/// A line of a memory dump: the address, the bytes, the characters.
pub open spec fn dump_line(base: nat, row: Seq<u8>) -> Seq<char> {
    let gap = seq![' ', ' '];
    gap + hex_number(base, 8) + gap + hex_row(row) + gap + row.map_values(|b: u8| printed(b))
}

/// Row `i` of bytes laid out in rows of 16.
pub open spec fn row_of(bytes: Seq<u8>, i: int) -> Seq<u8> {
    bytes.subrange(
        16 * i,
        if 16 * i + 16 <= bytes.len() {
            16 * i + 16
        } else {
            bytes.len() as int
        },
    )
}

/// The lines of a memory dump.
pub open spec fn dump(addr: u32, bytes: Seq<u8>) -> Seq<Seq<char>> {
    Seq::new(
        ((bytes.len() + 15) / 16) as nat,
        |i: int| dump_line((addr + 16 * i) as nat, row_of(bytes, i)),
    )
}

fn hex_digits(n: u64, width: usize) -> (r: Vec<char>)
    ensures
        r@ == hex_number(n as nat, width as nat),
    decreases n + width,
{
    if n < 16 && width <= 1 {
        let mut out: Vec<char> = Vec::new();
        out.push(text::hex_char(n as u8));
        assert(out@ =~= hex_number(n as nat, width as nat));
        out
    } else {
        let mut out = hex_digits(
            n / 16,
            if width == 0 {
                0
            } else {
                width - 1
            },
        );
        out.push(text::hex_char((n % 16) as u8));
        out
    }
}

fn show_line(base: u64, row: &[u8]) -> (r: String)
    ensures
        r@ == dump_line(base as nat, row@),
{
    let mut out: Vec<char> = Vec::new();
    out.push(' ');
    out.push(' ');
    let digits = hex_digits(base, 8);
    let mut i: usize = 0;
    while i < digits.len()
        invariant
            i <= digits@.len(),
            out@ == seq![' ', ' '] + digits@.take(i as int),
        decreases digits@.len() - i,
    {
        out.push(digits[i]);
        i = i + 1;
        assert(out@ =~= seq![' ', ' '] + digits@.take(i as int));
    }
    assert(digits@.take(digits@.len() as int) =~= digits@);
    out.push(' ');
    out.push(' ');
    let ghost head = seq![' ', ' '] + hex_number(base as nat, 8) + seq![' ', ' '];
    assert(out@ =~= head);
    assert(row@.take(0) =~= Seq::empty());
    let mut i: usize = 0;
    while i < row.len()
        invariant
            i <= row@.len(),
            out@ == head + hex_row(row@.take(i as int)),
        decreases row@.len() - i,
    {
        let b = row[i];
        let ghost done = row@.take(i as int);
        let ghost next = row@.take(i + 1);
        if i > 0 {
            out.push(' ');
        }
        out.push(text::hex_char(b / 16));
        out.push(text::hex_char(b % 16));
        proof {
            assert(next.drop_last() =~= done);
            assert(next.last() == b);
            if i > 0 {
                assert(out@ =~= head + (hex_row(done).push(' ') + hex_byte(b)));
            } else {
                assert(done =~= Seq::empty());
                assert(out@ =~= head + hex_byte(b));
            }
        }
        i = i + 1;
    }
    assert(row@.take(row@.len() as int) =~= row@);
    out.push(' ');
    out.push(' ');
    let ghost front = head + hex_row(row@) + seq![' ', ' '];
    assert(out@ =~= front);
    let ghost shown = row@.map_values(|b: u8| printed(b));
    let mut i: usize = 0;
    while i < row.len()
        invariant
            i <= row@.len(),
            shown == row@.map_values(|b: u8| printed(b)),
            out@ == front + shown.take(i as int),
        decreases row@.len() - i,
    {
        let b = row[i];
        out.push(
            if b >= 0x20 && b < 0x7F {
                b as char
            } else {
                '.'
            },
        );
        i = i + 1;
        assert(out@ =~= front + shown.take(i as int));
    }
    assert(shown.take(row@.len() as int) =~= shown);
    assert(out@ =~= dump_line(base as nat, row@));
    text::text_of(out.as_slice())
}

/// The lines in which `read` shows memory: 16 bytes a line, with the characters at the side.
pub fn dump_lines(addr: u32, bytes: &[u8]) -> (r: Vec<String>)
    requires
        addr + bytes@.len() + 16 <= usize::MAX,
    ensures
        r@.len() == dump(addr, bytes@).len(),
        forall|i: int| 0 <= i < r@.len() ==> (#[trigger] r@[i])@ == dump(addr, bytes@)[i],
{
    let n = bytes.len();
    let mut out: Vec<String> = Vec::new();
    let mut at: usize = 0;
    while at < n
        invariant
            n == bytes@.len(),
            addr + n + 16 <= usize::MAX,
            at == 16 * out@.len(),
            at < n + 16,
            out@.len() <= (n + 15) / 16,
            forall|i: int| 0 <= i < out@.len() ==> (#[trigger] out@[i])@ == dump(addr, bytes@)[i],
        decreases n + 16 - at,
    {
        let end = if n - at >= 16 {
            at + 16
        } else {
            n
        };
        out.push(show_line(addr as u64 + at as u64, slice_subrange(bytes, at, end)));
        at = at + 16;
    }
    out
}

/// A number is written in decimal, or in hexadecimal behind `0x` or `0X`. What does not fit in 32
/// bits is no number.
pub proof fn law_numbers(n: int)
    requires
        n >= 0,
    ensures
        ({
            let r = if n <= 0xFFFF_FFFF {
                Some(n as u32)
            } else {
                None
            };
            &&& number(text::written(n, 10)) == r
            &&& number("0x"@ + text::written(n, 16)) == r
            &&& number("0X"@ + text::written(n, 16)) == r
        }),
{
    reveal_strlit("0x");
    reveal_strlit("0X");
    let e = Seq::<char>::empty();
    let d = text::written(n, 10);
    text::lemma_written(n, 10);
    text::law_written_number_reads_back(n, 10, u32::MAX as int);
    text::law_trimming(e, d, e);
    assert(e + d + e =~= d);
    if d.len() >= 2 {
        assert(d.take(2)[1] == d[1]);
    }
    let h = text::written(n, 16);
    text::lemma_written(n, 16);
    text::law_written_number_reads_back(n, 16, u32::MAX as int);
    let x = "0x"@ + h;
    text::law_trimming(e, x, e);
    assert(e + x + e =~= x);
    assert(x.take(2) =~= "0x"@);
    assert(x.skip(2) =~= h);
    let y = "0X"@ + h;
    text::law_trimming(e, y, e);
    assert(e + y + e =~= y);
    assert(y.take(2) =~= "0X"@);
    assert(y.skip(2) =~= h);
}

/// No two command words are the same.
proof fn lemma_command_words()
    ensures
        "regs"@ != "help"@,
        "read"@ != "help"@ && "read"@ != "regs"@,
        "step"@ != "help"@ && "step"@ != "regs"@ && "step"@ != "read"@,
        "show"@ != "help"@ && "show"@ != "regs"@ && "show"@ != "read"@ && "show"@ != "step"@,
        "quit"@ != "help"@ && "quit"@ != "regs"@ && "quit"@ != "read"@ && "quit"@ != "step"@
            && "quit"@ != "show"@,
        "exit"@ != "help"@ && "exit"@ != "regs"@ && "exit"@ != "read"@ && "exit"@ != "step"@
            && "exit"@ != "show"@,
        "break"@ != "write"@,
        "trace"@ != "write"@ && "trace"@ != "break"@,
        "reset"@ != "write"@ && "reset"@ != "break"@ && "reset"@ != "trace"@,
        "help"@.len() == 4 && "regs"@.len() == 4 && "read"@.len() == 4 && "step"@.len() == 4,
        "show"@.len() == 4 && "quit"@.len() == 4 && "exit"@.len() == 4,
        "write"@.len() == 5 && "break"@.len() == 5 && "trace"@.len() == 5 && "reset"@.len() == 5,
        "?"@.len() == 1 && "run"@.len() == 3,
        "del"@ != "list"@,
        "irq"@ != "devices"@,
        "off"@ != "on"@ && "dump"@ != "on"@ && "dump"@ != "off"@,
        "clear"@ != "on"@ && "clear"@ != "off"@ && "clear"@ != "dump"@,
{
    reveal_strlit("help");
    reveal_strlit("?");
    reveal_strlit("regs");
    reveal_strlit("read");
    reveal_strlit("write");
    reveal_strlit("step");
    reveal_strlit("run");
    reveal_strlit("break");
    reveal_strlit("show");
    reveal_strlit("trace");
    reveal_strlit("reset");
    reveal_strlit("quit");
    reveal_strlit("exit");
    reveal_strlit("del");
    reveal_strlit("list");
    reveal_strlit("devices");
    reveal_strlit("irq");
    reveal_strlit("on");
    reveal_strlit("off");
    reveal_strlit("dump");
    reveal_strlit("clear");
    assert("help"@[0] == 'h' && "regs"@[0] == 'r' && "read"@[0] == 'r' && "step"@[0] == 's'
        && "show"@[0] == 's' && "quit"@[0] == 'q' && "exit"@[0] == 'e');
    assert("regs"@[2] == 'g' && "read"@[2] == 'a');
    assert("step"@[1] == 't' && "show"@[1] == 'h');
    assert("del"@.len() == 3 && "list"@.len() == 4 && "irq"@.len() == 3 && "devices"@.len() == 7);
    assert("on"@.len() == 2 && "off"@.len() == 3 && "dump"@.len() == 4 && "clear"@.len() == 5);
    assert("write"@[0] == 'w' && "break"@[0] == 'b' && "trace"@[0] == 't' && "reset"@[0] == 'r');
}

/// `break` with an address sets a breakpoint there, and `break del` deletes it; the other
/// breakpoints stay. Nothing else changes them, not even a command that is refused.
pub proof fn law_breakpoint_commands(breaks: Seq<u32>, a: Seq<char>, x: u32, w: Seq<Seq<char>>)
    requires
        breaks.no_duplicates(),
        number(a) == Some(x),
        a != "del"@,
        a != "list"@,
    ensures
        ({
            let (set, r) = command(breaks, seq!["break"@, a]);
            &&& r == Ok::<Action, ErrorView>(Action::BreakSet { addr: x })
            &&& forall|y: u32| #[trigger] set.contains(y) <==> y == x || breaks.contains(y)
            &&& set.no_duplicates()
        }),
        ({
            let (set, r) = command(breaks, seq!["break"@, "del"@, a]);
            &&& r == Ok::<Action, ErrorView>(Action::BreakDeleted { addr: x })
            &&& forall|y: u32| #[trigger] set.contains(y) <==> y != x && breaks.contains(y)
            &&& set.no_duplicates()
        }),
        command(breaks, seq!["break"@, "list"@]) == (
            breaks,
            Ok::<Action, ErrorView>(Action::BreakList),
        ),
        w.len() == 0 || w[0] != "break"@ ==> command(breaks, w).0 == breaks,
        command(breaks, w).1 is Err ==> command(breaks, w).0 == breaks,
{
    lemma_command_words();
    assert forall|y: u32| #[trigger] with(breaks, x).contains(y) <==> y == x || breaks.contains(y) by {
        law_breakpoints(breaks, x, y);
    }
    assert forall|y: u32| #[trigger] without(breaks, x).contains(y) <==> y != x && breaks.contains(
        y,
    ) by {
        law_breakpoints(breaks, x, y);
    }
    law_breakpoints(breaks, x, x);
    let s = seq!["break"@, a];
    assert(s[0] == "break"@ && s[1] == a);
    let d = seq!["break"@, "del"@, a];
    assert(d[0] == "break"@ && d[1] == "del"@ && d[2] == a);
    let l = seq!["break"@, "list"@];
    assert(l[0] == "break"@ && l[1] == "list"@);
}

/// `read` asks for 16 bytes at the address, or for as many as it says, from 1 to 256; `write` asks
/// for a word. An address or a value that is missing or no number is refused.
pub proof fn law_memory_commands(breaks: Seq<u32>, w: Seq<Seq<char>>, n: usize)
    requires
        w.len() > 0,
    ensures
        w[0] == "read"@ ==> ({
            let r = command(breaks, w).1;
            &&& w.len() == 1 ==> r == Err::<Action, ErrorView>(ErrorView::Usage(Usage::ReadAddr))
            &&& w.len() >= 2 && number(w[1]) is None ==> r == Err::<Action, ErrorView>(
                ErrorView::BadNumber(text::trimmed(w[1])),
            )
            &&& w.len() == 2 && number(w[1]) is Some ==> r == Ok::<Action, ErrorView>(
                Action::Read { addr: number(w[1])->0, len: 16 },
            )
            &&& w.len() >= 3 && number(w[1]) is Some && w[2] == text::written(n as int, 10) ==> r
                == Ok::<Action, ErrorView>(
                Action::Read {
                    addr: number(w[1])->0,
                    len: if n == 0 {
                        1
                    } else if n > 256 {
                        256
                    } else {
                        n
                    },
                },
            )
        }),
        w[0] == "write"@ ==> ({
            let r = command(breaks, w).1;
            &&& w.len() == 1 ==> r == Err::<Action, ErrorView>(ErrorView::Usage(Usage::WriteAddr))
            &&& w.len() >= 2 && number(w[1]) is None ==> r == Err::<Action, ErrorView>(
                ErrorView::BadNumber(text::trimmed(w[1])),
            )
            &&& w.len() == 2 && number(w[1]) is Some ==> r == Err::<Action, ErrorView>(
                ErrorView::Usage(Usage::WriteValue),
            )
            &&& w.len() >= 3 && number(w[1]) is Some && number(w[2]) is None ==> r == Err::<
                Action,
                ErrorView,
            >(ErrorView::BadNumber(text::trimmed(w[2])))
            &&& w.len() >= 3 && number(w[1]) is Some && number(w[2]) is Some ==> r == Ok::<
                Action,
                ErrorView,
            >(Action::Write { addr: number(w[1])->0, value: number(w[2])->0 })
        }),
{
    lemma_command_words();
    text::law_written_number_reads_back(n as int, 10, usize::MAX as int);
}

/// `step` makes one step and `run` has a budget of 10000, unless a number says otherwise.
pub proof fn law_run_commands(breaks: Seq<u32>, w: Seq<Seq<char>>, n: usize)
    requires
        w.len() > 0,
    ensures
        w[0] == "step"@ && w.len() == 1 ==> command(breaks, w).1 == Ok::<Action, ErrorView>(
            Action::Step { count: 1 },
        ),
        w[0] == "step"@ && w.len() >= 2 && w[1] == text::written(n as int, 10) ==> command(
            breaks,
            w,
        ).1 == Ok::<Action, ErrorView>(Action::Step { count: n }),
        w[0] == "run"@ && w.len() == 1 ==> command(breaks, w).1 == Ok::<Action, ErrorView>(
            Action::Run { budget: 10_000 },
        ),
        w[0] == "run"@ && w.len() >= 2 && w[1] == text::written(n as int, 10) ==> command(
            breaks,
            w,
        ).1 == Ok::<Action, ErrorView>(Action::Run { budget: n }),
{
    lemma_command_words();
    text::law_written_number_reads_back(n as int, 10, usize::MAX as int);
}

/// The commands without arguments ask for what they say; an empty line asks for nothing, and a
/// word that is no command is refused by its name.
pub proof fn law_plain_commands(breaks: Seq<u32>, w: Seq<Seq<char>>)
    ensures
        w.len() == 0 ==> command(breaks, w).1 == Ok::<Action, ErrorView>(Action::Nothing),
        w.len() > 0 && (w[0] == "help"@ || w[0] == "?"@) ==> command(breaks, w).1 == Ok::<
            Action,
            ErrorView,
        >(Action::Help),
        w.len() > 0 && w[0] == "regs"@ ==> command(breaks, w).1 == Ok::<Action, ErrorView>(
            Action::Regs,
        ),
        w.len() > 0 && w[0] == "reset"@ ==> command(breaks, w).1 == Ok::<Action, ErrorView>(
            Action::Reset,
        ),
        w.len() > 0 && (w[0] == "quit"@ || w[0] == "exit"@) ==> command(breaks, w).1 == Ok::<
            Action,
            ErrorView,
        >(Action::Quit),
        w.len() > 0 && w[0].len() > 5 ==> command(breaks, w).1 == Err::<Action, ErrorView>(
            ErrorView::Unknown(w[0]),
        ),
{
    lemma_command_words();
}

/// `show` and `trace` go by their second word, and need one that they know.
pub proof fn law_show_and_trace(breaks: Seq<u32>, w: Seq<Seq<char>>)
    requires
        w.len() > 0,
    ensures
        w[0] == "show"@ ==> ({
            let r = command(breaks, w).1;
            &&& w.len() == 1 ==> r == Err::<Action, ErrorView>(ErrorView::Usage(Usage::Show))
            &&& w.len() > 1 && w[1] == "devices"@ ==> r == Ok::<Action, ErrorView>(
                Action::ShowDevices,
            )
            &&& w.len() > 1 && w[1] == "irq"@ ==> r == Ok::<Action, ErrorView>(Action::ShowIrq)
        }),
        w[0] == "trace"@ ==> ({
            let r = command(breaks, w).1;
            &&& w.len() == 1 ==> r == Err::<Action, ErrorView>(ErrorView::Usage(Usage::Trace))
            &&& w.len() > 1 && w[1] == "on"@ ==> r == Ok::<Action, ErrorView>(
                Action::Trace(TraceOp::On),
            )
            &&& w.len() > 1 && w[1] == "off"@ ==> r == Ok::<Action, ErrorView>(
                Action::Trace(TraceOp::Off),
            )
            &&& w.len() > 1 && w[1] == "dump"@ ==> r == Ok::<Action, ErrorView>(
                Action::Trace(TraceOp::Dump),
            )
            &&& w.len() > 1 && w[1] == "clear"@ ==> r == Ok::<Action, ErrorView>(
                Action::Trace(TraceOp::Clear),
            )
        }),
{
    lemma_command_words();
}

/// The list of pending interrupts holds each of them once, by rising number, with whether it is
/// enabled and its priority, and holds nothing else.
pub proof fn law_pending_list(v: NvicView, n: int)
    requires
        0 <= n <= 82,
    ensures
        ({
            let p = pending_below(v, n);
            &&& forall|i: int|
                0 <= i < p.len() ==> {
                    let e = #[trigger] p[i];
                    e.0 < n && v.is_pending(e.0 as int) && e.1 == v.is_enabled(e.0 as int) && e.2
                        == v.irq_priority(e.0 as int)
                }
            &&& forall|i: int, j: int| 0 <= i < j < p.len() ==> (#[trigger] p[i]).0 < (#[trigger] p[j]).0
            &&& forall|irq: int|
                0 <= irq < n && #[trigger] v.is_pending(irq) ==> exists|i: int|
                    0 <= i < p.len() && (#[trigger] p[i]).0 == irq
        }),
    decreases n,
{
    if n > 0 {
        law_pending_list(v, n - 1);
        let rest = pending_below(v, n - 1);
        let p = pending_below(v, n);
        assert forall|irq: int| 0 <= irq < n && #[trigger] v.is_pending(irq) implies exists|i: int|
            0 <= i < p.len() && (#[trigger] p[i]).0 == irq by {
            if irq == n - 1 {
                assert(p[rest.len() as int].0 == irq);
            } else {
                let i = choose|i: int| 0 <= i < rest.len() && (#[trigger] rest[i]).0 == irq;
                assert(p[i] == rest[i]);
            }
        }
    }
}

proof fn lemma_hex_number(n: nat, width: nat)
    ensures
        text::digits_value(hex_number(n, width), 16) == Some(n as int),
        width == 8 && n < 0x1_0000_0000 ==> hex_number(n, width).len() == 8,
        width == 7 && n < 0x1000_0000 ==> hex_number(n, width).len() == 7,
        width == 6 && n < 0x100_0000 ==> hex_number(n, width).len() == 6,
        width == 5 && n < 0x10_0000 ==> hex_number(n, width).len() == 5,
        width == 4 && n < 0x1_0000 ==> hex_number(n, width).len() == 4,
        width == 3 && n < 0x1000 ==> hex_number(n, width).len() == 3,
        width == 2 && n < 0x100 ==> hex_number(n, width).len() == 2,
        width == 1 && n < 0x10 ==> hex_number(n, width).len() == 1,
    decreases n + width,
{
    let w = hex_number(n, width);
    if n < 16 && width <= 1 {
        assert(w.drop_last() =~= Seq::<char>::empty());
        assert(text::digits_value(w.drop_last(), 16) == Some(0int));
        assert(text::digit_of(w.last(), 16) == Some(n as int));
    } else {
        let less = if width == 0 {
            0
        } else {
            (width - 1) as nat
        };
        lemma_hex_number(n / 16, less);
        assert(w.drop_last() =~= hex_number(n / 16, less));
        assert(text::digit_of(w.last(), 16) == Some(n as int % 16));
    }
}

proof fn lemma_hex_row(row: Seq<u8>, k: int)
    requires
        0 <= k < row.len(),
    ensures
        hex_row(row).len() == 3 * row.len() - 1,
        hex_row(row)[3 * k] == text::hex_digit(row[k] as int / 16),
        hex_row(row)[3 * k + 1] == text::hex_digit(row[k] as int % 16),
        k > 0 ==> hex_row(row)[3 * k - 1] == ' ',
    decreases row.len(),
{
    if row.len() > 1 {
        if k < row.len() - 1 {
            lemma_hex_row(row.drop_last(), k);
        } else {
            lemma_hex_row(row.drop_last(), 0);
        }
    }
}

/// A dump shows 16 bytes a line. A line has its address in eight digits, then each byte in two
/// digits, and at its end the characters that the bytes stand for, with a dot for what cannot be
/// printed. Every byte is shown once, in order.
pub proof fn law_dump(addr: u32, bytes: Seq<u8>, k: int)
    requires
        0 <= k < bytes.len(),
        addr + bytes.len() <= 0x1_0000_0000,
    ensures
        ({
            let lines = dump(addr, bytes);
            let line = lines[k / 16];
            let n = if 16 * (k / 16) + 16 <= bytes.len() {
                16
            } else {
                bytes.len() - 16 * (k / 16)
            };
            let b = bytes[k] as int;
            let end = line[13 + 3 * n + k % 16];
            &&& lines.len() == (bytes.len() + 15) / 16
            &&& line.len() == 13 + 4 * n
            &&& text::digits_value(line.subrange(2, 10), 16) == Some(addr + 16 * (k / 16))
            &&& line[12 + 3 * (k % 16)] == text::hex_digit(b / 16)
            &&& line[13 + 3 * (k % 16)] == text::hex_digit(b % 16)
            &&& 0x20 <= b <= 0x7E ==> end as int == b
            &&& b < 0x20 || b > 0x7E ==> end == '.'
        }),
{
    let i = k / 16;
    let line = dump(addr, bytes)[i];
    let row = row_of(bytes, i);
    let base = (addr + 16 * i) as nat;
    lemma_hex_number(base, 8);
    lemma_hex_row(row, k % 16);
    assert(row[k % 16] == bytes[k]);
    assert(line.subrange(2, 10) =~= hex_number(base, 8));
}

} // verus!
