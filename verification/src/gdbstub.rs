//! A debugger's remote protocol: packets, and the commands that they carry.
//!
//! A packet is a dollar sign, the command, a hash sign and two digits of checksum. The
//! commands read and write the registers and the memory, set and clear breakpoints, and let
//! the processor run. What only the processor can do is handed back as a [`Reply`].
use crate::bits;
use crate::memory;
use crate::memory::GuestMemory;
use crate::text;
use std::collections::HashSet;
use vstd::prelude::*;
use vstd::slice::slice_subrange;

verus! {

/// The registers of a debugger's view, in its order: r0 to r12, sp, lr, pc, xpsr, msp, psp,
/// primask, basepri, faultmask, control.
pub const REG_COUNT: usize = 23;

/// The place of the program counter among them.
pub const REG_PC: usize = 15;

/// The budget of one step.
pub const STEP_BUDGET: usize = 500;

/// How many steps a command to continue makes at most.
pub const CONTINUE_MAX_SEG: u64 = 5_000;

/// What a command asks for.
#[derive(Debug, PartialEq, Eq)]
pub enum Reply {
    /// This answer, now.
    Text(String),
    /// One step; the answer is then `S05`.
    Step,
    /// Steps until something stops them, from this address if there is one.
    Continue(Option<u32>),
}

/// A reply as a value of the model.
pub enum ReplyView {
    Text(Seq<char>),
    Step,
    Continue(Option<u32>),
}

impl View for Reply {
    type V = ReplyView;

    open spec fn view(&self) -> ReplyView {
        match *self {
            Reply::Text(s) => ReplyView::Text(s@),
            Reply::Step => ReplyView::Step,
            Reply::Continue(a) => ReplyView::Continue(a),
        }
    }
}

// ---- numbers ----

/// The number that hexadecimal digits write, white space around them aside.
pub open spec fn hex_value(s: Seq<char>) -> Option<u32> {
    match text::unsigned(text::trimmed(s), 16, u32::MAX as int) {
        Some(v) => Some(v as u32),
        None => None,
    }
}

/// Reads a hexadecimal number.
pub fn hex_to_u32(s: &[char]) -> (r: Option<u32>)
    ensures
        r == hex_value(s@),
{
    match text::parse_unsigned(text::trim(s), 16, u32::MAX as u64) {
        Some(v) => Some(v as u32),
        None => None,
    }
}

/// The byte that two characters write.
pub open spec fn pair_value(s: Seq<char>) -> Option<u8> {
    match text::unsigned(s, 16, 0xFF) {
        Some(v) => Some(v as u8),
        None => None,
    }
}

/// The bytes that the first `n` pairs of characters write.
pub open spec fn bytes_value(s: Seq<char>, n: int) -> Option<Seq<u8>>
    decreases n,
{
    if n <= 0 {
        Some(Seq::empty())
    } else {
        match (bytes_value(s, n - 1), pair_value(s.subrange(2 * n - 2, 2 * n))) {
            (Some(b), Some(x)) => Some(b.push(x)),
            _ => None,
        }
    }
}

/// The bytes that a text writes, two characters each; none if one is left over.
pub open spec fn hex_bytes(s: Seq<char>) -> Option<Seq<u8>> {
    if s.len() % 2 != 0 {
        None
    } else {
        bytes_value(s, s.len() as int / 2)
    }
}

proof fn lemma_bytes_stop(s: Seq<char>, i: int, n: int)
    requires
        0 <= i <= n,
        bytes_value(s, i) is None,
    ensures
        bytes_value(s, n) is None,
    decreases n,
{
    if i < n {
        lemma_bytes_stop(s, i, n - 1);
    }
}

/// Reads bytes, two hexadecimal characters each.
pub fn hex_to_bytes(s: &[char]) -> (r: Option<Vec<u8>>)
    ensures
        match r {
            Some(b) => hex_bytes(s@) == Some(b@),
            None => hex_bytes(s@) is None,
        },
{
    let len = s.len();
    if len % 2 != 0 {
        return None;
    }
    let n = len / 2;
    let mut out: Vec<u8> = Vec::new();
    let mut i: usize = 0;
    while i < n
        invariant
            i <= n,
            2 * n == s@.len(),
            len == s@.len(),
            n == len / 2,
            bytes_value(s@, i as int) == Some(out@),
        decreases n - i,
    {
        let pair = slice_subrange(s, 2 * i, 2 * i + 2);
        assert(pair@ =~= s@.subrange(2 * (i + 1) - 2, 2 * (i + 1)));
        match text::parse_unsigned(pair, 16, 0xFF) {
            Some(v) => {
                out.push(v as u8);
            },
            None => {
                proof {
                    assert(bytes_value(s@, i + 1) is None);
                    lemma_bytes_stop(s@, i + 1, n as int);
                }
                return None;
            },
        }
        i = i + 1;
    }
    Some(out)
}

/// Two numbers with a comma between them.
pub open spec fn addr_len(s: Seq<char>) -> Option<(u32, u32)> {
    match text::split_once_of(s, ',') {
        Some((a, l)) => match (hex_value(a), hex_value(l)) {
            (Some(a), Some(l)) => Some((a, l)),
            _ => None,
        },
        None => None,
    }
}

/// Reads two numbers with a comma between them.
pub fn parse_addr_len(s: &[char]) -> (r: Option<(u32, u32)>)
    ensures
        r == addr_len(s@),
{
    match text::split_once(s, ',') {
        Some((a, l)) => match (hex_to_u32(a), hex_to_u32(l)) {
            (Some(a), Some(l)) => Some((a, l)),
            _ => None,
        },
        None => None,
    }
}

/// The hexadecimal writing of bytes, two digits each.
pub open spec fn hex_text(b: Seq<u8>) -> Seq<char>
    decreases b.len(),
{
    if b.len() == 0 {
        Seq::empty()
    } else {
        hex_text(b.drop_last()).push(text::hex_digit(b.last() as int / 16)).push(
            text::hex_digit(b.last() as int % 16),
        )
    }
}

/// Writes bytes, two digits each.
fn bytes_to_hex(b: &[u8]) -> (r: String)
    ensures
        r@ == hex_text(b@),
{
    let mut out = String::new();
    let mut i: usize = 0;
    assert(b@.take(0) =~= Seq::<u8>::empty());
    while i < b.len()
        invariant
            i <= b@.len(),
            out@ == hex_text(b@.take(i as int)),
        decreases b@.len() - i,
    {
        let x = b[i];
        out.push(text::hex_char(x / 16));
        out.push(text::hex_char(x % 16));
        assert(b@.take(i + 1).drop_last() =~= b@.take(i as int));
        i = i + 1;
    }
    assert(b@.take(b@.len() as int) =~= b@);
    out
}

// ---- framing ----

/// What the reader of packets is doing.
#[derive(Debug, PartialEq, Eq)]
pub enum Phase {
    /// Waiting for a packet.
    Idle,
    /// Reading a command.
    Body,
    /// Skipping the checksum; so many digits are left.
    Checksum(u8),
}

/// Reads packets from a stream of bytes.
pub struct PacketReader {
    pub phase: Phase,
    pub command: Vec<u8>,
}

/// One byte of the stream: the next phase, the command so far, and whether a packet is complete.
pub open spec fn packet_step(phase: Phase, command: Seq<u8>, byte: u8) -> (Phase, Seq<u8>, bool) {
    match phase {
        Phase::Idle => if byte == 0x24 {
            (Phase::Body, Seq::empty(), false)
        } else {
            (Phase::Idle, command, false)
        },
        Phase::Body => if byte == 0x23 {
            (Phase::Checksum(2), command, false)
        } else {
            (Phase::Body, command.push(byte), false)
        },
        Phase::Checksum(n) => if n > 1 {
            (Phase::Checksum((n - 1) as u8), command, false)
        } else {
            (Phase::Idle, command, true)
        },
    }
}

impl PacketReader {
    pub fn new() -> (r: Self)
        ensures
            r.phase == Phase::Idle,
            r.command@ == Seq::<u8>::empty(),
    {
        PacketReader { phase: Phase::Idle, command: Vec::new() }
    }

    /// The command read last, as text.
    pub fn command_text(&self) -> (r: String)
        ensures
            r@ == text::decoded(self.command@),
    {
        text::decode(self.command.as_slice())
    }

    /// Takes one byte. The answer says whether `command` now holds a whole command; the
    /// checksum is not compared.
    pub fn feed(&mut self, byte: u8) -> (done: bool)
        ensures
            (final(self).phase, final(self).command@, done) == packet_step(
                old(self).phase,
                old(self).command@,
                byte,
            ),
    {
        match self.phase {
            Phase::Idle => {
                if byte == 0x24 {
                    self.command = Vec::new();
                    self.phase = Phase::Body;
                }
                false
            },
            Phase::Body => {
                if byte == 0x23 {
                    self.phase = Phase::Checksum(2);
                } else {
                    self.command.push(byte);
                }
                false
            },
            Phase::Checksum(n) => {
                if n > 1 {
                    self.phase = Phase::Checksum(n - 1);
                    false
                } else {
                    self.phase = Phase::Idle;
                    true
                }
            },
        }
    }
}

/// The sum of the bytes, modulo 256.
pub open spec fn checksum(b: Seq<u8>) -> int
    decreases b.len(),
{
    if b.len() == 0 {
        0
    } else {
        (checksum(b.drop_last()) + b.last()) % 256
    }
}

/// The packet that carries an answer.
pub open spec fn framed(b: Seq<u8>) -> Seq<u8> {
    let sum = checksum(b);
    seq![0x24u8] + b + seq![
        0x23u8,
        text::hex_digit(sum / 16) as u8,
        text::hex_digit(sum % 16) as u8,
    ]
}

/// Makes the packet that carries an answer.
pub fn frame_reply(b: &[u8]) -> (r: Vec<u8>)
    ensures
        r@ == framed(b@),
{
    let mut out: Vec<u8> = Vec::new();
    out.push(0x24);
    let mut sum: u8 = 0;
    let mut i: usize = 0;
    assert(b@.take(0) =~= Seq::<u8>::empty());
    while i < b.len()
        invariant
            i <= b@.len(),
            out@ == seq![0x24u8] + b@.take(i as int),
            sum == checksum(b@.take(i as int)),
        decreases b@.len() - i,
    {
        out.push(b[i]);
        sum = ((sum as u32 + b[i] as u32) % 256) as u8;
        assert(b@.take(i + 1).drop_last() =~= b@.take(i as int));
        assert(out@ =~= seq![0x24u8] + b@.take(i + 1));
        i = i + 1;
    }
    assert(b@.take(b@.len() as int) =~= b@);
    out.push(0x23);
    out.push(text::hex_char(sum / 16) as u8);
    out.push(text::hex_char(sum % 16) as u8);
    assert(out@ =~= framed(b@));
    out
}

// ---- commands ----

/// The server's side of a debugging session.
pub struct GdbServer {
    breaks: HashSet<u32>,
}

impl View for GdbServer {
    type V = Set<u32>;

    /// The addresses with a breakpoint.
    closed spec fn view(&self) -> Set<u32> {
        self.breaks@
    }
}

/// All that a command touches.
#[verifier::ext_equal]
pub struct Session {
    pub breaks: Set<u32>,
    pub regs: Seq<u32>,
    pub mem: Map<u64, u8>,
}

/// The bytes of the registers, low byte first.
pub open spec fn register_bytes(regs: Seq<u32>, n: int) -> Seq<u8>
    decreases n,
{
    if n <= 0 {
        Seq::empty()
    } else {
        register_bytes(regs, n - 1) + seq![
            bits::byte_at(regs[n - 1], 0),
            bits::byte_at(regs[n - 1], 1),
            bits::byte_at(regs[n - 1], 2),
            bits::byte_at(regs[n - 1], 3),
        ]
    }
}

/// The registers with those replaced for which there are four bytes.
pub open spec fn registers_from(regs: Seq<u32>, b: Seq<u8>) -> Seq<u32> {
    Seq::new(
        regs.len(),
        |i: int|
            if 4 * i + 4 <= b.len() {
                bits::word_of(b[4 * i], b[4 * i + 1], b[4 * i + 2], b[4 * i + 3])
            } else {
                regs[i]
            },
    )
}

/// The answer to a question about the server.
pub open spec fn query_answer(q: Seq<char>) -> Seq<char> {
    if text::begins(q, "Supported"@) {
        "PacketSize=1024;qXfer:memory-map:read-;qXfer:features:read-"@
    } else if text::begins(q, "C"@) {
        "QC1"@
    } else if text::begins(q, "Attached"@) {
        "1"@
    } else {
        ""@
    }
}

/// The address in the arguments of a breakpoint command: what stands between the first comma
/// and the next.
pub open spec fn break_address(args: Seq<char>) -> Option<u32> {
    match text::split_once_of(args, ',') {
        Some((_, rest)) => hex_value(text::before(rest, ',')),
        None => None,
    }
}

/// A request to read memory.
pub open spec fn read_memory(x: Session, args: Seq<char>) -> Seq<char> {
    match addr_len(args) {
        None => "E01"@,
        Some((a, n)) => if memory::mapped(x.mem, a as int, n as int) {
            hex_text(memory::bytes_of(x.mem, a as int, n as int))
        } else {
            "E02"@
        },
    }
}

/// The address and the bytes of a request to write memory; none if it is malformed or the
/// count does not match the bytes.
pub open spec fn write_request(args: Seq<char>) -> Option<(u32, Seq<u8>)> {
    match text::split_once_of(args, ':') {
        None => None,
        Some((head, data)) => match (addr_len(head), hex_bytes(data)) {
            (Some((a, n)), Some(b)) => if b.len() == n {
                Some((a, b))
            } else {
                None
            },
            _ => None,
        },
    }
}

/// A request to write memory.
pub open spec fn write_memory(x: Session, args: Seq<char>) -> (Session, Seq<char>) {
    match write_request(args) {
        None => (x, "E01"@),
        Some((a, b)) => if memory::mapped(x.mem, a as int, b.len() as int) {
            (Session { mem: memory::stored(x.mem, a as int, b), ..x }, "OK"@)
        } else {
            (x, "E02"@)
        },
    }
}

/// What a command does, and what it is answered.
pub open spec fn command(x: Session, cmd: Seq<char>) -> (Session, ReplyView) {
    let args = cmd.drop_first();
    if cmd.len() == 0 {
        (x, ReplyView::Text(""@))
    } else if cmd[0] == '?' {
        (x, ReplyView::Text("S05"@))
    } else if cmd[0] == 'g' {
        (x, ReplyView::Text(hex_text(register_bytes(x.regs, REG_COUNT as int))))
    } else if cmd[0] == 'G' {
        match hex_bytes(args) {
            Some(b) => (
                Session { regs: registers_from(x.regs, b), ..x },
                ReplyView::Text("OK"@),
            ),
            None => (x, ReplyView::Text("E01"@)),
        }
    } else if cmd[0] == 'm' {
        (x, ReplyView::Text(read_memory(x, args)))
    } else if cmd[0] == 'M' {
        let (y, t) = write_memory(x, args);
        (y, ReplyView::Text(t))
    } else if cmd[0] == 'c' {
        let target = if cmd.len() > 1 {
            hex_value(args)
        } else {
            None
        };
        (
            match target {
                Some(a) => Session { regs: x.regs.update(REG_PC as int, a), ..x },
                None => x,
            },
            ReplyView::Continue(target),
        )
    } else if cmd[0] == 's' {
        (x, ReplyView::Step)
    } else if cmd[0] == 'Z' {
        (
            match break_address(args) {
                Some(a) => Session { breaks: x.breaks.insert(a), ..x },
                None => x,
            },
            ReplyView::Text("OK"@),
        )
    } else if cmd[0] == 'z' {
        (
            match break_address(args) {
                Some(a) => Session { breaks: x.breaks.remove(a), ..x },
                None => x,
            },
            ReplyView::Text("OK"@),
        )
    } else if cmd[0] == 'q' {
        (x, ReplyView::Text(query_answer(args)))
    } else {
        (x, ReplyView::Text(""@))
    }
}

/// Writes the registers as bytes.
fn registers_to_hex(regs: &[u32; 23]) -> (r: String)
    ensures
        r@ == hex_text(register_bytes(regs@, REG_COUNT as int)),
{
    let mut b: Vec<u8> = Vec::new();
    let mut i: usize = 0;
    while i < REG_COUNT
        invariant
            i <= REG_COUNT,
            regs@.len() == 23,
            b@ == register_bytes(regs@, i as int),
        decreases REG_COUNT - i,
    {
        b.push(bits::byte_of(regs[i], 0));
        b.push(bits::byte_of(regs[i], 1));
        b.push(bits::byte_of(regs[i], 2));
        b.push(bits::byte_of(regs[i], 3));
        assert(b@ =~= register_bytes(regs@, i + 1));
        i = i + 1;
    }
    bytes_to_hex(b.as_slice())
}

fn registers_from_bytes(regs: &mut [u32; 23], b: &Vec<u8>)
    ensures
        final(regs)@ == registers_from(old(regs)@, b@),
{
    let ghost before = regs@;
    let mut i: usize = 0;
    while i < REG_COUNT && 4 * i + 4 <= b.len()
        invariant
            i <= REG_COUNT,
            before.len() == 23,
            regs@.len() == 23,
            forall|k: int| i <= k < 23 ==> regs@[k] == before[k],
            forall|k: int|
                0 <= k < i ==> #[trigger] regs@[k] == registers_from(before, b@)[k] && 4 * k + 4
                    <= b@.len(),
        decreases REG_COUNT - i,
    {
        let at = 4 * i;
        regs[i] = bits::le_word(b[at], b[at + 1], b[at + 2], b[at + 3]);
        i = i + 1;
    }
    assert(regs@ =~= registers_from(before, b@));
}

fn answer(s: &str) -> (r: Reply)
    ensures
        r@ == ReplyView::Text(s@),
{
    Reply::Text(s.to_owned())
}

impl GdbServer {
    pub fn new() -> (r: Self)
        ensures
            r@ == Set::<u32>::empty(),
    {
        GdbServer { breaks: HashSet::new() }
    }

    /// Serves one command.
    pub fn handle_packet<M: GuestMemory>(
        &mut self,
        cmd: &str,
        regs: &mut [u32; 23],
        mem: &mut M,
    ) -> (r: Reply)
        ensures
            (
                Session { breaks: final(self)@, regs: final(regs)@, mem: final(mem)@ },
                r@,
            ) == command(
                Session { breaks: old(self)@, regs: old(regs)@, mem: old(mem)@ },
                cmd@,
            ),
    {
        broadcast use vstd::std_specs::hash::group_hash_axioms;

        let c = text::chars_of(cmd);
        let n = c.len();
        if n == 0 {
            return answer("");
        }
        let args = slice_subrange(c.as_slice(), 1, n);
        assert(args@ =~= cmd@.drop_first());
        match c[0] {
            '?' => answer("S05"),
            'g' => Reply::Text(registers_to_hex(regs)),
            'G' => match hex_to_bytes(args) {
                Some(b) => {
                    registers_from_bytes(regs, &b);
                    answer("OK")
                },
                None => answer("E01"),
            },
            'm' => Self::cmd_read_mem(args, mem),
            'M' => Self::cmd_write_mem(args, mem),
            'c' => {
                let target = if n > 1 {
                    hex_to_u32(args)
                } else {
                    None
                };
                if let Some(a) = target {
                    regs[REG_PC] = a;
                }
                Reply::Continue(target)
            },
            's' => Reply::Step,
            'Z' => {
                if let Some(a) = Self::break_addr(args) {
                    self.breaks.insert(a);
                }
                answer("OK")
            },
            'z' => {
                if let Some(a) = Self::break_addr(args) {
                    self.breaks.remove(&a);
                }
                answer("OK")
            },
            'q' => Self::cmd_query(args),
            _ => answer(""),
        }
    }

    fn cmd_read_mem<M: GuestMemory>(args: &[char], mem: &M) -> (r: Reply)
        ensures
            r@ == ReplyView::Text(
                read_memory(
                    Session { breaks: Set::empty(), regs: Seq::empty(), mem: mem@ },
                    args@,
                ),
            ),
    {
        match parse_addr_len(args) {
            None => answer("E01"),
            Some((a, n)) => match mem.mem_read(a as u64, n as usize) {
                Some(b) => Reply::Text(bytes_to_hex(b.as_slice())),
                None => answer("E02"),
            },
        }
    }

    fn cmd_write_mem<M: GuestMemory>(args: &[char], mem: &mut M) -> (r: Reply)
        ensures
            ({
                let x = Session { breaks: Set::empty(), regs: Seq::empty(), mem: old(mem)@ };
                let (y, t) = write_memory(x, args@);
                final(mem)@ == y.mem && r@ == ReplyView::Text(t)
            }),
    {
        let (head, data) = match text::split_once(args, ':') {
            Some(v) => v,
            None => {
                return answer("E01");
            },
        };
        let (a, n) = match parse_addr_len(head) {
            Some(v) => v,
            None => {
                return answer("E01");
            },
        };
        match hex_to_bytes(data) {
            Some(b) => {
                if b.len() != n as usize {
                    return answer("E01");
                }
                if mem.mem_write(a as u64, &b) {
                    answer("OK")
                } else {
                    answer("E02")
                }
            },
            None => answer("E01"),
        }
    }

    fn break_addr(args: &[char]) -> (r: Option<u32>)
        ensures
            r == break_address(args@),
    {
        match text::split_once(args, ',') {
            Some((_, rest)) => hex_to_u32(text::cut_at(rest, ',')),
            None => None,
        }
    }

    fn cmd_query(q: &[char]) -> (r: Reply)
        ensures
            r@ == ReplyView::Text(query_answer(q@)),
    {
        if text::begins_with(q, "Supported") {
            answer("PacketSize=1024;qXfer:memory-map:read-;qXfer:features:read-")
        } else if text::begins_with(q, "C") {
            answer("QC1")
        } else if text::begins_with(q, "Attached") {
            answer("1")
        } else {
            answer("")
        }
    }

    /// Is there a breakpoint at the address?
    pub fn has_break(&self, addr: u32) -> (r: bool)
        ensures
            r == self@.contains(addr),
    {
        broadcast use vstd::std_specs::hash::group_hash_axioms;

        self.breaks.contains(&addr)
    }

    /// One round of a command to continue: `None` lets the processor run another segment;
    /// else the answer. `segs` segments have run; `failed` says that the last one failed.
    pub fn continue_reply(&self, pc: u32, segs: u64, failed: bool) -> (r: Option<String>)
        ensures
            match r {
                Some(t) => continue_answer(self@, pc, segs, failed) == Some(t@),
                None => continue_answer(self@, pc, segs, failed) is None,
            },
    {
        if failed {
            Some("S05".to_owned())
        } else if segs >= CONTINUE_MAX_SEG {
            Some("S02".to_owned())
        } else if self.has_break(pc) {
            Some("S05".to_owned())
        } else {
            None
        }
    }
}

/// When a command to continue ends: after a failed segment, after the last one allowed, or at
/// a breakpoint.
pub open spec fn continue_answer(breaks: Set<u32>, pc: u32, segs: u64, failed: bool) -> Option<
    Seq<char>,
> {
    if failed {
        Some("S05"@)
    } else if segs >= CONTINUE_MAX_SEG {
        Some("S02"@)
    } else if breaks.contains(pc) {
        Some("S05"@)
    } else {
        None
    }
}

// ---- laws ----

/// Two characters that write a byte read back as that byte.
proof fn lemma_pair_roundtrip(x: u8)
    ensures
        pair_value(seq![text::hex_digit(x as int / 16), text::hex_digit(x as int % 16)]) == Some(x),
{
    let (a, b) = (text::hex_digit(x as int / 16), text::hex_digit(x as int % 16));
    let s = seq![a, b];
    assert(text::without_plus(s) == s);
    reveal_with_fuel(text::digits_value, 3);
    assert(s.drop_last() =~= seq![a]);
    assert(seq![a].drop_last() =~= Seq::<char>::empty());
}

/// Bytes that were written in hexadecimal are read back.
pub proof fn law_hex_roundtrip(b: Seq<u8>)
    ensures
        hex_text(b).len() == 2 * b.len(),
        hex_bytes(hex_text(b)) == Some(b),
{
    lemma_hex_prefix(b, b.len() as int);
    assert(b.take(b.len() as int) =~= b);
}

proof fn lemma_hex_prefix(b: Seq<u8>, n: int)
    requires
        0 <= n <= b.len(),
    ensures
        hex_text(b).len() == 2 * b.len(),
        bytes_value(hex_text(b), n) == Some(b.take(n)),
    decreases b.len(), n,
{
    let t = hex_text(b);
    if b.len() > 0 {
        let front = b.drop_last();
        lemma_hex_prefix(front, 0);
        if n > 0 {
            lemma_hex_prefix(b, n - 1);
            let pair = t.subrange(2 * n - 2, 2 * n);
            if n == b.len() {
                let x = b.last();
                assert(pair =~= seq![text::hex_digit(x as int / 16), text::hex_digit(
                    x as int % 16,
                )]);
                lemma_pair_roundtrip(x);
            } else {
                lemma_hex_prefix(front, n);
                assert(pair =~= hex_text(front).subrange(2 * n - 2, 2 * n));
                assert(front.take(n) =~= b.take(n));
                assert(front.take(n).last() == b[n - 1]);
            }
            assert(b.take(n) =~= b.take(n - 1).push(b[n - 1]));
        } else {
            assert(b.take(0) =~= Seq::<u8>::empty());
        }
    } else {
        assert(b.take(0) =~= Seq::<u8>::empty());
    }
}

/// What was written to memory is read back, in the same hexadecimal writing.
pub proof fn law_memory_roundtrip(x: Session, write: Seq<char>, read: Seq<char>)
    requires
        write_request(write) matches Some((a, b)) && addr_len(read) == Some((a, b.len() as u32))
            && memory::mapped(x.mem, a as int, b.len() as int) && b.len() <= u32::MAX,
    ensures
        ({
            let (y, t) = write_memory(x, write);
            t == "OK"@ && read_memory(y, read) == hex_text((write_request(write)->0).1)
        }),
{
    let (a, b) = write_request(write)->0;
    let y = write_memory(x, write).0;
    memory::law_load_what_was_stored(x.mem, a as int, b);
    memory::law_store_then_load(x.mem, a as int, b, a as u64);
    assert(memory::mapped(y.mem, a as int, b.len() as int));
}

proof fn lemma_register_bytes(regs: Seq<u32>, n: int, i: int)
    requires
        0 <= i < n,
    ensures
        register_bytes(regs, n).len() == 4 * n,
        register_bytes(regs, n)[4 * i] == bits::byte_at(regs[i], 0),
        register_bytes(regs, n)[4 * i + 1] == bits::byte_at(regs[i], 1),
        register_bytes(regs, n)[4 * i + 2] == bits::byte_at(regs[i], 2),
        register_bytes(regs, n)[4 * i + 3] == bits::byte_at(regs[i], 3),
    decreases n,
{
    if n > 1 {
        lemma_register_bytes(
            regs,
            n - 1,
            if i < n - 1 {
                i
            } else {
                0
            },
        );
    } else {
        assert(register_bytes(regs, 0).len() == 0);
    }
}

/// The registers, read in hexadecimal and written back, are the same, whatever the registers
/// held in between.
pub proof fn law_registers_roundtrip(x: Session, between: Seq<u32>)
    requires
        x.regs.len() == REG_COUNT,
        between.len() == REG_COUNT,
    ensures
        hex_bytes(hex_text(register_bytes(x.regs, REG_COUNT as int))) == Some(
            register_bytes(x.regs, REG_COUNT as int),
        ),
        registers_from(between, register_bytes(x.regs, REG_COUNT as int)) == x.regs,
{
    let b = register_bytes(x.regs, REG_COUNT as int);
    law_hex_roundtrip(b);
    assert forall|i: int| 0 <= i < REG_COUNT implies #[trigger] registers_from(between, b)[i]
        == x.regs[i] by {
        lemma_register_bytes(x.regs, REG_COUNT as int, i);
        bits::lemma_word_of_bytes(x.regs[i]);
    }
    assert(registers_from(between, b) =~= x.regs);
}

/// Feeding the bytes of a framed command, after whatever ended the last packet, gives the
/// command back, provided that it holds no hash sign.
pub proof fn law_framing_roundtrip(b: Seq<u8>, stale: Seq<u8>)
    requires
        forall|i: int| 0 <= i < b.len() ==> #[trigger] b[i] != 0x23,
    ensures
        fed(Phase::Idle, stale, framed(b), framed(b).len() as int) == (Phase::Idle, b, true),
{
    let f = framed(b);
    lemma_fed_body(b, stale, b.len() as int);
    assert(b.take(b.len() as int) =~= b);
    reveal_with_fuel(fed, 4);
}

/// The reader after the first `n` bytes.
pub open spec fn fed(phase: Phase, command: Seq<u8>, stream: Seq<u8>, n: int) -> (
    Phase,
    Seq<u8>,
    bool,
)
    decreases n,
{
    if n <= 0 {
        (phase, command, false)
    } else {
        let (p, c, _) = fed(phase, command, stream, n - 1);
        packet_step(p, c, stream[n - 1])
    }
}

proof fn lemma_fed_body(b: Seq<u8>, stale: Seq<u8>, k: int)
    requires
        0 <= k <= b.len(),
        forall|i: int| 0 <= i < b.len() ==> #[trigger] b[i] != 0x23,
    ensures
        fed(Phase::Idle, stale, framed(b), k + 1) == (Phase::Body, b.take(k), false),
    decreases k,
{
    reveal_with_fuel(fed, 2);
    if k > 0 {
        lemma_fed_body(b, stale, k - 1);
        assert(framed(b)[k] == b[k - 1]);
        assert(b.take(k) =~= b.take(k - 1).push(b[k - 1]));
    } else {
        assert(b.take(0) =~= Seq::<u8>::empty());
    }
}

/// The hexadecimal writing shows the high digit of a byte first, and the bytes in order.
pub proof fn law_hex_layout(b: Seq<u8>, i: int)
    requires
        0 <= i < b.len(),
    ensures
        hex_text(b).len() == 2 * b.len(),
        hex_text(b)[2 * i] == text::hex_digit(b[i] as int / 16),
        hex_text(b)[2 * i + 1] == text::hex_digit(b[i] as int % 16),
    decreases b.len(),
{
    let front = b.drop_last();
    lemma_hex_prefix(b, 0);
    lemma_hex_prefix(front, 0);
    if i < front.len() {
        law_hex_layout(front, i);
    }
}

/// A hexadecimal number is read as it is written.
proof fn lemma_hex_written(v: u32)
    ensures
        hex_value(text::written(v as int, 16)) == Some(v),
        !text::written(v as int, 16).contains(','),
        !text::written(v as int, 16).contains(':'),
        text::written(v as int, 16).len() > 0,
{
    let t = text::written(v as int, 16);
    text::lemma_written(v as int, 16);
    text::law_written_number_reads_back(v as int, 16, u32::MAX as int);
    let e = Seq::<char>::empty();
    text::law_trimming(e, t, e);
    assert(e + t + e =~= t);
}

/// The words of a command: an address and a count.
proof fn lemma_addr_len_written(a: u32, n: u32)
    ensures
        addr_len(text::written(a as int, 16) + seq![','] + text::written(n as int, 16)) == Some((a, n)),
{
    lemma_hex_written(a);
    lemma_hex_written(n);
    text::law_split_at_the_first(text::written(a as int, 16), ',', text::written(n as int, 16));
}

/// Setting a breakpoint adds its address to the breakpoints and nothing else; clearing it takes
/// it away and nothing else. So one undoes the other.
pub proof fn law_breakpoint_commands(x: Session, kind: Seq<char>, a: u32, more: Seq<char>, b: u32)
    requires
        !kind.contains(','),
    ensures
        ({
            let args = kind + seq![','] + (text::written(a as int, 16) + seq![','] + more);
            let (set, r1) = command(x, seq!['Z'] + args);
            let (cleared, r2) = command(x, seq!['z'] + args);
            &&& r1 == ReplyView::Text("OK"@) && r2 == ReplyView::Text("OK"@)
            &&& set.breaks.contains(b) <==> b == a || x.breaks.contains(b)
            &&& cleared.breaks.contains(b) <==> b != a && x.breaks.contains(b)
            &&& set.regs == x.regs && set.mem == x.mem
            &&& cleared.regs == x.regs && cleared.mem == x.mem
            &&& command(set, seq!['z'] + args).0 == cleared
            &&& !x.breaks.contains(a) ==> command(set, seq!['z'] + args).0 == x
            &&& x.breaks.contains(a) ==> command(cleared, seq!['Z'] + args).0 == x
        }),
{
    let h = text::written(a as int, 16);
    let rest = h + seq![','] + more;
    let args = kind + seq![','] + rest;
    lemma_hex_written(a);
    text::law_split_at_the_first(kind, ',', rest);
    text::law_split_at_the_first(h, ',', more);
    assert(break_address(args) == Some(a));
    assert((seq!['Z'] + args).drop_first() =~= args);
    assert((seq!['z'] + args).drop_first() =~= args);
    let set = command(x, seq!['Z'] + args).0;
    let cleared = command(x, seq!['z'] + args).0;
    assert(command(set, seq!['z'] + args).0 =~= cleared);
    assert(!x.breaks.contains(a) ==> command(set, seq!['z'] + args).0 =~= x);
    assert(x.breaks.contains(a) ==> command(cleared, seq!['Z'] + args).0 =~= x);
}

/// A command to continue goes on exactly while nothing failed, segments are left, and there is
/// no breakpoint; running out of segments is told apart from the other ends.
pub proof fn law_continue_ends(breaks: Set<u32>, pc: u32, segs: u64, failed: bool)
    ensures
        continue_answer(breaks, pc, segs, failed) is None <==> !failed && segs < 5000
            && !breaks.contains(pc),
        continue_answer(breaks, pc, segs, failed) == Some("S02"@) <==> !failed && segs >= 5000,
        continue_answer(breaks, pc, segs, failed) == Some("S05"@) <==> failed || segs < 5000
            && breaks.contains(pc),
{
    reveal_strlit("S02");
    reveal_strlit("S05");
    assert("S02"@[2] != "S05"@[2]);
}

/// A command to read memory shows the bytes from the address on, two digits each, and changes
/// nothing; where memory is missing it is refused.
pub proof fn law_read_memory(x: Session, a: u32, n: u32, i: int)
    requires
        0 <= i < n,
    ensures
        ({
            let cmd = seq!['m'] + (text::written(a as int, 16) + seq![','] + text::written(
                n as int,
                16,
            ));
            let (y, r) = command(x, cmd);
            &&& y == x
            &&& !memory::mapped(x.mem, a as int, n as int) ==> r == ReplyView::Text("E02"@)
            &&& memory::mapped(x.mem, a as int, n as int) ==> {
                &&& r matches ReplyView::Text(t)
                &&& t.len() == 2 * n
                &&& t[2 * i] == text::hex_digit(x.mem[(a + i) as u64] as int / 16)
                &&& t[2 * i + 1] == text::hex_digit(x.mem[(a + i) as u64] as int % 16)
            }
        }),
{
    let args = text::written(a as int, 16) + seq![','] + text::written(n as int, 16);
    lemma_addr_len_written(a, n);
    assert((seq!['m'] + args).drop_first() =~= args);
    law_hex_layout(memory::bytes_of(x.mem, a as int, n as int), i);
}

/// A command to write memory puts the bytes in place from the address on and changes nothing
/// else; a count that is not that of the bytes, or missing memory, is refused and changes nothing.
pub proof fn law_write_memory(x: Session, a: u32, n: u32, b: Seq<u8>, at: u64)
    ensures
        ({
            let cmd = seq!['M'] + (text::written(a as int, 16) + seq![','] + text::written(
                n as int,
                16,
            ) + seq![':'] + hex_text(b));
            let (y, r) = command(x, cmd);
            &&& y.regs == x.regs && y.breaks == x.breaks && y.mem.dom() == x.mem.dom()
            &&& b.len() != n ==> y == x && r == ReplyView::Text("E01"@)
            &&& b.len() == n && !memory::mapped(x.mem, a as int, n as int) ==> y == x && r
                == ReplyView::Text("E02"@)
            &&& b.len() == n && memory::mapped(x.mem, a as int, n as int) ==> {
                &&& r == ReplyView::Text("OK"@)
                &&& y.mem[at] == if a <= at < a + n {
                    b[at - a]
                } else {
                    x.mem[at]
                }
            }
        }),
{
    let (ha, hn) = (text::written(a as int, 16), text::written(n as int, 16));
    let head = ha + seq![','] + hn;
    let args = head + seq![':'] + hex_text(b);
    lemma_addr_len_written(a, n);
    lemma_hex_written(a);
    lemma_hex_written(n);
    assert(!head.contains(':')) by {
        if head.contains(':') {
            let i = choose|i: int| 0 <= i < head.len() && head[i] == ':';
            if i < ha.len() {
                assert(ha[i] == ':');
                assert(ha.contains(ha[i]));
            } else if i > ha.len() {
                assert(hn[i - ha.len() - 1] == ':');
                assert(hn.contains(hn[i - ha.len() - 1]));
            }
        }
    }
    text::law_split_at_the_first(head, ':', hex_text(b));
    law_hex_roundtrip(b);
    assert((seq!['M'] + args).drop_first() =~= args);
    if b.len() == n && memory::mapped(x.mem, a as int, n as int) {
        memory::law_store_then_load(x.mem, a as int, b, at);
    }
}

/// The registers are shown in order, each lowest byte first, and the writing of all of them sets
/// them again; memory and breakpoints are left alone.
pub proof fn law_register_commands(x: Session, y: Session, i: int, k: int)
    requires
        x.regs.len() == 23,
        y.regs.len() == 23,
        0 <= i < 23,
        0 <= k < 4,
    ensures
        ({
            let (x1, r) = command(x, seq!['g']);
            &&& x1 == x
            &&& r matches ReplyView::Text(t)
            &&& t.len() == 184
            &&& t[8 * i + 2 * k] == text::hex_digit(bits::byte_at(x.regs[i], k as u32) as int / 16)
            &&& t[8 * i + 2 * k + 1] == text::hex_digit(
                bits::byte_at(x.regs[i], k as u32) as int % 16,
            )
            &&& command(y, seq!['G'] + t) == (
                Session { regs: x.regs, ..y },
                ReplyView::Text("OK"@),
            )
        }),
{
    let b = register_bytes(x.regs, 23);
    lemma_register_bytes(x.regs, 23, i);
    law_hex_layout(b, 4 * i + k);
    law_hex_roundtrip(b);
    law_registers_roundtrip(x, y.regs);
    let t = hex_text(b);
    assert((seq!['G'] + t).drop_first() =~= t);
    assert(seq!['g'].drop_first() =~= Seq::<char>::empty());
}

/// A command to continue at an address sets the program counter and no other register; without
/// an address nothing is set. A command to step changes nothing.
pub proof fn law_run_commands(x: Session, a: u32, i: int)
    requires
        x.regs.len() == 23,
        0 <= i < 23,
    ensures
        ({
            let (y, r) = command(x, seq!['c'] + text::written(a as int, 16));
            &&& r == ReplyView::Continue(Some(a))
            &&& y.regs.len() == 23
            &&& y.regs[i] == if i == 15 {
                a
            } else {
                x.regs[i]
            }
            &&& y.mem == x.mem && y.breaks == x.breaks
        }),
        command(x, seq!['c']) == (x, ReplyView::Continue(None)),
        command(x, seq!['s']) == (x, ReplyView::Step),
        command(x, seq!['?']) == (x, ReplyView::Text("S05"@)),
{
    let h = text::written(a as int, 16);
    lemma_hex_written(a);
    assert((seq!['c'] + h).drop_first() =~= h);
}

/// The checksum is the sum of the bytes modulo 256, and a packet shows it high digit first
/// behind the hash sign.
pub proof fn law_checksum(a: Seq<u8>, b: Seq<u8>, c: u8)
    ensures
        0 <= checksum(a) < 256,
        checksum(seq![c]) == c,
        checksum(a + b) == (checksum(a) + checksum(b)) % 256,
        framed(a).len() == a.len() + 4,
        framed(a)[0] == 0x24,
        framed(a).subrange(1, (a.len() + 1) as int) == a,
        framed(a)[(a.len() + 1) as int] == 0x23,
        framed(a)[(a.len() + 2) as int] == text::hex_digit(checksum(a) / 16) as u8,
        framed(a)[(a.len() + 3) as int] == text::hex_digit(checksum(a) % 16) as u8,
{
    lemma_checksum_adds(a, b);
    assert(seq![c].drop_last() =~= Seq::<u8>::empty());
    assert(checksum(seq![c].drop_last()) == 0);
    assert(framed(a).subrange(1, (a.len() + 1) as int) =~= a);
}

proof fn lemma_sums_modulo(x: int, y: int, z: int)
    ensures
        ((x + y) % 256 + z) % 256 == (x + (y + z) % 256) % 256,
{
}

#[verifier::spinoff_prover]
proof fn lemma_checksum_adds(a: Seq<u8>, b: Seq<u8>)
    ensures
        checksum(a + b) == (checksum(a) + checksum(b)) % 256,
        0 <= checksum(a) < 256,
    decreases b.len(),
{
    if b.len() == 0 {
        assert(a + b =~= a);
        assert(checksum(b) == 0);
    } else {
        let c = b.drop_last();
        lemma_checksum_adds(a, c);
        let s = a + b;
        assert(s.drop_last() =~= a + c);
        assert(s.last() == b.last());
        assert(checksum(s) == (checksum(a + c) + b.last()) % 256);
        assert(checksum(b) == (checksum(c) + b.last()) % 256);
        lemma_sums_modulo(checksum(a), checksum(c), b.last() as int);
    }
}

} // verus!
