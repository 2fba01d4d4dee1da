//! The run file: what to load and how long to run.
//!
//! Lines of `key = value`; `#` and `;` begin a comment. Keys are read without regard to case,
//! and a value may stand in quotes. Of several lines with one key the last one counts.
use crate::artifact;
use crate::text;
use vstd::prelude::*;
use vstd::slice::slice_subrange;

verus! {

/// The settings in a run file.
#[derive(Debug)]
pub struct Settings {
    entries: Vec<(String, String)>,
}

/// Later entries overrule earlier ones.
pub open spec fn map_of(entries: Seq<(Seq<char>, Seq<char>)>) -> Map<Seq<char>, Seq<char>>
    decreases entries.len(),
{
    if entries.len() == 0 {
        Map::empty()
    } else {
        map_of(entries.drop_last()).insert(entries.last().0, entries.last().1)
    }
}

spec fn pair_views(v: Seq<(String, String)>) -> Seq<(Seq<char>, Seq<char>)> {
    Seq::new(v.len(), |i: int| (v[i].0@, v[i].1@))
}

impl View for Settings {
    type V = Map<Seq<char>, Seq<char>>;

    closed spec fn view(&self) -> Map<Seq<char>, Seq<char>> {
        map_of(pair_views(self.entries@))
    }
}

/// What stands before the first comment sign.
pub open spec fn uncommented(s: Seq<char>) -> Seq<char> {
    text::before(text::before(s, '#'), ';')
}

/// A value without the quotes around it.
pub open spec fn unquoted(s: Seq<char>) -> Seq<char> {
    if s.len() >= 2 && s[0] == '"' && s.last() == '"' {
        s.subrange(1, s.len() - 1)
    } else {
        s
    }
}

/// The key and the value in a line, if it has any.
pub open spec fn entry_of(line: Seq<char>) -> Option<(Seq<char>, Seq<char>)> {
    match text::split_once_of(text::trimmed(uncommented(line)), '=') {
        Some((k, v)) => Some((text::lowered(text::trimmed(k)), unquoted(text::trimmed(v)))),
        None => None,
    }
}

/// The settings in the first `n` lines.
pub open spec fn settings_of(ls: Seq<Seq<char>>, n: int) -> Map<Seq<char>, Seq<char>>
    decreases n,
{
    if n <= 0 {
        Map::empty()
    } else {
        match entry_of(ls[n - 1]) {
            Some((k, v)) => settings_of(ls, n - 1).insert(k, v),
            None => settings_of(ls, n - 1),
        }
    }
}

fn read_entry(line: &[char]) -> (r: Option<(String, String)>)
    ensures
        match r {
            Some((k, v)) => entry_of(line@) == Some((k@, v@)),
            None => entry_of(line@) is None,
        },
{
    let body = text::trim(text::cut_at(text::cut_at(line, '#'), ';'));
    match text::split_once(body, '=') {
        Some((k, v)) => {
            let key = text::lower(text::trim(k));
            let v = text::trim(v);
            let n = v.len();
            let v = if n >= 2 && v[0] == '"' && v[n - 1] == '"' {
                slice_subrange(v, 1, n - 1)
            } else {
                v
            };
            Some((text::text_of(key.as_slice()), text::text_of(v)))
        },
        None => None,
    }
}

/// Reads a run file.
pub fn parse_cfg(src: &str) -> (r: Settings)
    ensures
        r@ == settings_of(text::lines(src@), text::lines(src@).len() as int),
{
    let cs = text::chars_of(src);
    let ls = text::split_lines(cs.as_slice());
    let ghost all = text::lines(src@);
    let mut s = Settings { entries: Vec::new() };
    let mut i: usize = 0;
    proof {
        assert(text::texts(ls@).len() == ls@.len());
        assert(pair_views(s.entries@) =~= Seq::empty());
    }
    while i < ls.len()
        invariant
            i <= ls@.len(),
            all == text::texts(ls@),
            all == text::lines(src@),
            s@ == settings_of(all, i as int),
        decreases ls@.len() - i,
    {
        assert(all[i as int] == ls@[i as int]@);
        if let Some((k, v)) = read_entry(ls[i].as_slice()) {
            let ghost before = pair_views(s.entries@);
            s.entries.push((k, v));
            proof {
                let after = pair_views(s.entries@);
                assert(after =~= before.push((k@, v@)));
                assert(after.drop_last() =~= before);
            }
        }
        i = i + 1;
    }
    s
}

proof fn lemma_last_wins(entries: Seq<(Seq<char>, Seq<char>)>, key: Seq<char>, n: int)
    requires
        0 <= n <= entries.len(),
        forall|k: int| n <= k < entries.len() ==> (#[trigger] entries[k]).0 != key,
    ensures
        map_of(entries).dom().contains(key) == map_of(entries.take(n)).dom().contains(key),
        map_of(entries).dom().contains(key) ==> map_of(entries)[key] == map_of(
            entries.take(n),
        )[key],
    decreases entries.len() - n,
{
    if n == entries.len() {
        assert(entries.take(n) =~= entries);
    } else {
        let e = entries.drop_last();
        lemma_last_wins(e, key, n);
        assert(e.take(n) =~= entries.take(n));
    }
}

impl Settings {
    /// The value of a key.
    pub fn get(&self, key: &str) -> (r: Option<&str>)
        ensures
            match r {
                Some(v) => self@.dom().contains(key@) && self@[key@] == v@,
                None => !self@.dom().contains(key@),
            },
    {
        let k = text::chars_of(key);
        let ghost es = pair_views(self.entries@);
        let mut i = self.entries.len();
        while i > 0
            invariant
                i <= self.entries@.len(),
                k@ == key@,
                es == pair_views(self.entries@),
                forall|j: int| i <= j < es.len() ==> (#[trigger] es[j]).0 != key@,
            decreases i,
        {
            assert(es[i - 1] == (self.entries@[i - 1].0@, self.entries@[i - 1].1@));
            if text::is_text(k.as_slice(), self.entries[i - 1].0.as_str()) {
                proof {
                    lemma_last_wins(es, key@, i as int);
                    let t = es.take(i as int);
                    assert(t.last() == es[i - 1]);
                }
                return Some(self.entries[i - 1].1.as_str());
            }
            i = i - 1;
        }
        proof {
            lemma_last_wins(es, key@, 0);
            assert(es.take(0) =~= Seq::empty());
        }
        None
    }
}

/// The number that a setting gives; `def`, if it is missing or no number up to `max`.
pub open spec fn number(
    m: Map<Seq<char>, Seq<char>>,
    key: Seq<char>,
    max: int,
    def: int,
) -> int {
    if m.dom().contains(key) {
        match text::unsigned(m[key], 10, max) {
            Some(v) => v,
            None => def,
        }
    } else {
        def
    }
}

/// The text that a setting gives.
pub open spec fn given(m: Map<Seq<char>, Seq<char>>, key: Seq<char>) -> Option<Seq<char>> {
    if m.dom().contains(key) {
        Some(m[key])
    } else {
        None
    }
}

fn number_or(s: &Settings, key: &str, max: u64, def: u64) -> (r: u64)
    requires
        def <= max,
    ensures
        r == number(s@, key@, max as int, def as int),
        r <= max,
{
    match s.get(key) {
        Some(v) => {
            let cs = text::chars_of(v);
            match text::parse_unsigned(cs.as_slice(), 10, max) {
                Some(n) => n,
                None => def,
            }
        },
        None => def,
    }
}

fn text_in(s: &Settings, key: &str) -> (r: Option<String>)
    ensures
        match r {
            Some(v) => given(s@, key@) == Some(v@),
            None => given(s@, key@) is None,
        },
{
    match s.get(key) {
        Some(v) => Some(v.to_string()),
        None => None,
    }
}

/// What to run.
#[derive(Debug)]
pub struct RunPlan {
    /// The firmware; a run file without it is of no use.
    pub elf: Option<String>,
    /// The application image, if any.
    pub app: Option<String>,
    /// The budget of a step.
    pub n: u64,
    /// The number of steps; 0 means until told to stop.
    pub max_steps: u64,
    /// The USART that gets what is typed.
    pub rx_port: u8,
}

/// What to run, as the settings say.
pub fn plan(s: &Settings) -> (r: RunPlan)
    ensures
        match r.elf {
            Some(p) => given(s@, "elf"@) == Some(p@),
            None => given(s@, "elf"@) is None,
        },
        match r.app {
            Some(p) => given(s@, "app"@) == Some(p@),
            None => given(s@, "app"@) is None,
        },
        r.n == number(s@, "n"@, u64::MAX as int, 400_000),
        r.max_steps == number(s@, "max_steps"@, u64::MAX as int, 0),
        r.rx_port == number(s@, "rx_port"@, u8::MAX as int, 1),
{
    RunPlan {
        elf: text_in(s, "elf"),
        app: text_in(s, "app"),
        n: number_or(s, "n", u64::MAX, 400_000),
        max_steps: number_or(s, "max_steps", u64::MAX, 0),
        rx_port: number_or(s, "rx_port", 255, 1) as u8,
    }
}

impl RunPlan {
    /// Is the run over after so many steps?
    pub fn is_over(&self, steps: u64) -> (r: bool)
        ensures
            r == (self.max_steps != 0 && steps >= self.max_steps),
    {
        self.max_steps != 0 && steps >= self.max_steps
    }
}

/// Where a file that a run file names is: a path that is there or absolute stays as it is;
/// else it is seen from the directory of the run file.
pub fn locate(path: &str, is_there: bool, dir: &str) -> (r: String)
    ensures
        r@ == if is_there {
            path@
        } else {
            artifact::joined(dir@, path@)
        },
{
    if is_there {
        path.to_string()
    } else {
        artifact::join(dir, path)
    }
}

/// Where the console output that has not been shown begins: if the output has become shorter,
/// all of it is new.
pub fn unseen_from(shown: usize, len: usize) -> (r: usize)
    ensures
        r == if shown <= len {
            shown
        } else {
            0
        },
        r <= len,
{
    if shown <= len {
        shown
    } else {
        0
    }
}

/// Does the input ask to stop?
pub open spec fn asks_to_stop(input: Seq<u8>) -> bool {
    let t = text::right_trimmed(text::decoded(input));
    t == "quit"@ || t == "exit"@
}

/// Does the input ask to stop?
pub fn is_quit(input: &[u8]) -> (r: bool)
    ensures
        r == asks_to_stop(input@),
{
    let t = text::decode(input);
    let cs = text::chars_of(t.as_str());
    let t = text::trim_end(cs.as_slice());
    text::is_text(t, "quit") || text::is_text(t, "exit")
}

/// Has the firmware said so on the console?
pub fn heard(output: &[u8], mark: &str) -> (r: bool)
    ensures
        r == text::occurs(text::decoded(output@), mark@),
{
    let t = text::decode(output);
    let cs = text::chars_of(t.as_str());
    let m = text::chars_of(mark);
    text::contains(cs.as_slice(), m.as_slice())
}

/// The mark of a firmware that waits for a USB host.
pub open spec fn ready_mark() -> Seq<char> {
    "DRVTEST-USB-HOST-READY"@
}

/// The mark of a firmware that a USB host has set up.
pub open spec fn enumerated_mark() -> Seq<char> {
    "DRVTEST-USB-ENUM-OK"@
}

/// The number of requests with which a host sets a device up.
pub const SETUP_COUNT: usize = 4;

/// The requests with which a host sets a device up: describe the device, describe the
/// configuration, take an address, take the configuration.
pub open spec fn setup_request(i: int) -> Seq<u8> {
    if i == 0 {
        seq![0x80u8, 0x06, 0x00, 0x01, 0x00, 0x00, 0x12, 0x00]
    } else if i == 1 {
        seq![0x80u8, 0x06, 0x00, 0x02, 0x00, 0x00, 0x20, 0x00]
    } else if i == 2 {
        seq![0x00u8, 0x05, 0x2a, 0x00, 0x00, 0x00, 0x00, 0x00]
    } else {
        seq![0x00u8, 0x09, 0x01, 0x00, 0x00, 0x00, 0x00, 0x00]
    }
}

/// A USB host that sets the device up step by step and then sends it a pattern.
#[derive(Debug, Clone, Copy, PartialEq, Eq, Structural)]
pub struct UsbHost {
    /// The bus has been reset.
    pub reset: bool,
    /// How many requests have been sent.
    pub sent: usize,
    /// The pattern has been sent.
    pub greeted: bool,
}

impl UsbHost {
    pub fn new() -> (r: Self)
        ensures
            r == (UsbHost { reset: false, sent: 0, greeted: false }),
    {
        UsbHost { reset: false, sent: 0, greeted: false }
    }

    /// Is there anything left to do?
    pub fn is_busy(&self) -> (r: bool)
        ensures
            r == (!self.reset || !self.greeted),
    {
        !self.reset || !self.greeted
    }

    /// Has the bus to be reset now? It is reset once, when the firmware says that it waits.
    pub fn resets(&mut self, output: &[u8]) -> (r: bool)
        ensures
            r == (!old(self).reset && text::occurs(text::decoded(output@), ready_mark())),
            *final(self) == (UsbHost { reset: old(self).reset || r, ..*old(self) }),
    {
        if !self.reset && heard(output, "DRVTEST-USB-HOST-READY") {
            self.reset = true;
            true
        } else {
            false
        }
    }

    /// The request to send now, if any. The first waits until the device has set up its
    /// endpoint interrupts after the reset; the others until the one before has been taken.
    pub fn next_setup(&mut self, rx_empty: bool, daintmsk: u32) -> (r: Option<[u8; 8]>)
        ensures
            match r {
                Some(p) => p@ == setup_request(old(self).sent as int) && *final(self) == (UsbHost {
                    sent: (old(self).sent + 1) as usize,
                    ..*old(self)
                }),
                None => *final(self) == *old(self),
            },
            r is Some == (old(self).reset && old(self).sent < SETUP_COUNT && if old(self).sent
                == 0 {
                daintmsk != 0
            } else {
                rx_empty
            }),
    {
        if !self.reset || self.sent >= SETUP_COUNT {
            return None;
        }
        let ready = if self.sent == 0 {
            daintmsk != 0
        } else {
            rx_empty
        };
        if !ready {
            return None;
        }
        let p: [u8; 8] = if self.sent == 0 {
            [0x80, 0x06, 0x00, 0x01, 0x00, 0x00, 0x12, 0x00]
        } else if self.sent == 1 {
            [0x80, 0x06, 0x00, 0x02, 0x00, 0x00, 0x20, 0x00]
        } else if self.sent == 2 {
            [0x00, 0x05, 0x2a, 0x00, 0x00, 0x00, 0x00, 0x00]
        } else {
            [0x00, 0x09, 0x01, 0x00, 0x00, 0x00, 0x00, 0x00]
        };
        assert(p@ =~= setup_request(self.sent as int));
        self.sent = self.sent + 1;
        Some(p)
    }

    /// The pattern to send to endpoint 1 now, if any: 64 bytes that count up from 0x55, once,
    /// when the firmware says that it has been set up.
    pub fn greeting(&mut self, output: &[u8]) -> (r: Option<Vec<u8>>)
        ensures
            match r {
                Some(p) => p@ == Seq::new(64, |i: int| (0x55 + i) as u8) && *final(self) == (
                UsbHost { greeted: true, ..*old(self) }),
                None => *final(self) == *old(self),
            },
            r is Some == (!old(self).greeted && text::occurs(
                text::decoded(output@),
                enumerated_mark(),
            )),
    {
        if self.greeted || !heard(output, "DRVTEST-USB-ENUM-OK") {
            return None;
        }
        let mut p: Vec<u8> = Vec::new();
        let mut i: u8 = 0;
        while i < 64
            invariant
                i <= 64,
                p@.len() == i,
                forall|k: int| 0 <= k < i ==> #[trigger] p@[k] == (0x55 + k) as u8,
            decreases 64 - i,
        {
            p.push(0x55 + i);
            i = i + 1;
        }
        assert(p@ =~= Seq::new(64, |i: int| (0x55 + i) as u8));
        self.greeted = true;
        Some(p)
    }
}

/// A line `key = value` gives the value to the key, in lower case; a comment behind it, blanks
/// around the two and quotes around the value make no difference. A line without `=`, or with
/// nothing but a comment, gives nothing.
pub proof fn law_setting_line(key: Seq<char>, value: Seq<char>, note: Seq<char>)
    requires
        text::is_word(key),
        text::is_word(value),
        !key.contains('#') && !key.contains(';') && !key.contains('='),
        !value.contains('#') && !value.contains(';') && !value.contains('"'),
    ensures
        entry_of(key + seq![' ', '=', ' '] + value) == Some((text::lowered(key), value)),
        entry_of(key + seq!['='] + value) == Some((text::lowered(key), value)),
        entry_of(key + seq![' ', '=', ' '] + value + seq!['#'] + note) == Some(
            (text::lowered(key), value),
        ),
        entry_of(key + seq![' ', '=', ' '] + value + seq![';'] + note) == Some(
            (text::lowered(key), value),
        ),
        entry_of(key + seq!['=', '"'] + value + seq!['"']) == Some((text::lowered(key), value)),
        entry_of(key) is None,
        entry_of(seq!['#'] + note) is None,
{
    let e = Seq::<char>::empty();
    let sp = seq![' '];
    text::law_trimming(e, key, e);
    text::law_trimming(e, value, e);
    text::law_trimming(e, key, sp);
    text::law_trimming(sp, value, e);
    assert(e + key + e =~= key && e + value + e =~= value);
    assert(e + key + sp =~= key + sp && sp + value + e =~= sp + value);
    assert(value[0] != '"') by {
        assert(value.contains(value[0]));
    }
    let s = key + seq![' ', '=', ' '] + value;
    lemma_plain(s, key, seq![' ', '=', ' '], value);
    assert(s =~= (key + sp) + seq!['='] + (sp + value));
    lemma_without(key, sp, '=');
    text::law_split_at_the_first(key + sp, '=', sp + value);
    text::law_split_at_the_first(s, '#', note);
    text::law_split_at_the_first(s, ';', note);
    let t = key + seq!['='] + value;
    lemma_plain(t, key, seq!['='], value);
    text::law_split_at_the_first(key, '=', value);
    let with_hash = s + seq!['#'] + note;
    assert(text::before(with_hash, '#') == s);
    let with_semi = s + seq![';'] + note;
    assert(text::trimmed(uncommented(with_semi)) == s) by {
        lemma_cut(s, note);
    }
    let q = seq!['"'] + value + seq!['"'];
    let u = key + seq!['=', '"'] + value + seq!['"'];
    assert(u =~= key + seq!['='] + q);
    assert forall|c: char| c == '#' || c == ';' implies !q.contains(c) by {
        if q.contains(c) {
            let i = choose|i: int| 0 <= i < q.len() && q[i] == c;
            assert(value.contains(value[i - 1]));
        }
    }
    lemma_plain(u, key, seq!['='], q);
    text::law_split_at_the_first(key, '=', q);
    text::law_trimming(e, q, e);
    assert(e + q + e =~= q);
    assert(q.subrange(1, q.len() - 1) =~= value);
    text::law_split_at_the_first(key, '#', e);
    text::law_split_at_the_first(key, ';', e);
    text::law_split_at_the_first(e, '#', note);
    assert(e + seq!['#'] + note =~= seq!['#'] + note);
    text::law_split_at_the_first(e, ';', note);
    text::law_trimming(e, key, e);
    assert(e + e =~= e);
    text::law_split_at_the_first(e, '=', note);
}

proof fn lemma_without(a: Seq<char>, b: Seq<char>, c: char)
    requires
        !a.contains(c),
        !b.contains(c),
    ensures
        !(a + b).contains(c),
{
    if (a + b).contains(c) {
        let i = choose|i: int| 0 <= i < (a + b).len() && (a + b)[i] == c;
        if i < a.len() {
            assert(a[i] == c);
        } else {
            assert(b[i - a.len()] == c);
        }
    }
}

/// A line without comment signs is its own content.
proof fn lemma_plain(s: Seq<char>, a: Seq<char>, b: Seq<char>, c: Seq<char>)
    requires
        s == a + b + c,
        a.len() > 0,
        c.len() > 0,
        0x20 < a[0] as int <= 0x7E,
        0x20 < c.last() as int <= 0x7E,
        !a.contains('#') && !a.contains(';'),
        b == seq![' ', '=', ' '] || b == seq!['='],
        !c.contains('#') && !c.contains(';'),
    ensures
        !s.contains('#') && !s.contains(';'),
        uncommented(s) == s,
        text::trimmed(s) == s,
{
    let e = Seq::<char>::empty();
    assert(!b.contains('#') && !b.contains(';'));
    lemma_without(a, b, '#');
    lemma_without(a, b, ';');
    lemma_without(a + b, c, '#');
    lemma_without(a + b, c, ';');
    text::law_split_at_the_first(s, '#', e);
    text::law_split_at_the_first(s, ';', e);
    assert(s[0] == a[0] && s.last() == c.last());
    text::law_trimming(e, s, e);
    assert(e + s + e =~= s);
}

/// A comment behind a semicolon is cut off, whatever is in it.
proof fn lemma_cut(s: Seq<char>, note: Seq<char>)
    requires
        !s.contains('#') && !s.contains(';'),
        text::trimmed(s) == s,
    ensures
        text::trimmed(uncommented(s + seq![';'] + note)) == s,
{
    let x = s + seq![';'];
    let whole = x + note;
    assert(!x.contains('#')) by {
        assert(!seq![';'].contains('#'));
        lemma_without(s, seq![';'], '#');
    }
    if note.contains('#') {
        let k = lemma_first_at(note, '#');
        let (p, q) = (note.take(k), note.skip(k + 1));
        assert(note =~= p + seq!['#'] + q);
        assert(!p.contains('#'));
        lemma_without(x, p, '#');
        assert(whole =~= (x + p) + seq!['#'] + q);
        text::law_split_at_the_first(x + p, '#', q);
        assert(text::before(whole, '#') == x + p);
        assert(x + p =~= s + seq![';'] + p);
        text::law_split_at_the_first(s, ';', p);
    } else {
        lemma_without(x, note, '#');
        text::law_split_at_the_first(whole, '#', Seq::empty());
        text::law_split_at_the_first(s, ';', note);
    }
}

proof fn lemma_first_at(s: Seq<char>, c: char) -> (k: int)
    requires
        s.contains(c),
    ensures
        0 <= k < s.len(),
        s[k] == c,
        forall|j: int| 0 <= j < k ==> s[j] != c,
    decreases s.len(),
{
    if s[0] == c {
        0
    } else {
        let t = s.drop_first();
        let i = choose|i: int| 0 <= i < s.len() && s[i] == c;
        assert(t[i - 1] == c);
        let k = lemma_first_at(t, c);
        assert forall|j: int| 0 <= j < k + 1 implies s[j] != c by {
            if j > 0 {
                assert(t[j - 1] == s[j]);
            }
        }
        k + 1
    }
}

/// Of several lines with one key the last one counts.
pub proof fn law_last_line_counts(
    ls: Seq<Seq<char>>,
    n: int,
    i: int,
    key: Seq<char>,
    value: Seq<char>,
)
    requires
        0 <= i < n <= ls.len(),
        entry_of(ls[i]) == Some((key, value)),
        forall|j: int|
            i < j < n ==> (entry_of(#[trigger] ls[j]) matches Some((k, _)) ==> k != key),
    ensures
        settings_of(ls, n).dom().contains(key),
        settings_of(ls, n)[key] == value,
    decreases n,
{
    if i < n - 1 {
        law_last_line_counts(ls, n - 1, i, key, value);
        assert(entry_of(ls[n - 1]) matches Some((k, _)) ==> k != key);
    }
}

/// A key that no line gives has no value.
pub proof fn law_missing_setting(ls: Seq<Seq<char>>, n: int, key: Seq<char>)
    requires
        0 <= n <= ls.len(),
        forall|j: int|
            0 <= j < n ==> (entry_of(#[trigger] ls[j]) matches Some((k, _)) ==> k != key),
    ensures
        !settings_of(ls, n).dom().contains(key),
    decreases n,
{
    if n > 0 {
        law_missing_setting(ls, n - 1, key);
        assert(entry_of(ls[n - 1]) matches Some((k, _)) ==> k != key);
    }
}

} // verus!
