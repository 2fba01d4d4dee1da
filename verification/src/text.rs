//! Text: what the parsers of this library are made of.
use vstd::prelude::*;
use vstd::slice::slice_subrange;

verus! {

/// `String::push` adds one character at the end of the text.
pub assume_specification[ String::push ](s: &mut String, c: char)
    ensures
        final(s)@ == old(s)@.push(c),
;

/// The text that bytes stand for in UTF-8, with what is not UTF-8 replaced.
pub uninterp spec fn decoded(b: Seq<u8>) -> Seq<char>;

/// `String::from_utf8_lossy` decodes UTF-8 and puts U+FFFD in the place of what is no UTF-8. The
/// contract gives the result a name, and says that bytes below 128 stand for themselves.
#[verifier::external_body]
pub(crate) fn decode(b: &[u8]) -> (r: String)
    ensures
        r@ == decoded(b@),
        (forall|i: int| 0 <= i < b@.len() ==> #[trigger] b@[i] < 128) ==> r@ == Seq::new(
            b@.len(),
            |i: int| b@[i] as char,
        ),
{
    String::from_utf8_lossy(b).into_owned()
}

/// The characters of a text.
pub fn chars_of(s: &str) -> (r: Vec<char>)
    ensures
        r@ == s@,
{
    let mut r: Vec<char> = Vec::new();
    for c in it: s.chars()
        invariant
            r@ == s@.take(it.index() as int),
            it.seq() == s@,
    {
        r.push(c);
    }
    assert(s@.take(s@.len() as int) =~= s@);
    r
}

/// The text made of some characters.
pub fn text_of(cs: &[char]) -> (r: String)
    ensures
        r@ == cs@,
{
    let mut r = String::new();
    let mut i: usize = 0;
    while i < cs.len()
        invariant
            i <= cs@.len(),
            r@ == cs@.take(i as int),
        decreases cs@.len() - i,
    {
        r.push(cs[i]);
        i = i + 1;
    }
    assert(cs@.take(cs@.len() as int) =~= cs@);
    r
}

/// Are the two runs of characters the same?
pub fn same_chars(a: &[char], b: &[char]) -> (r: bool)
    ensures
        r == (a@ == b@),
{
    if a.len() != b.len() {
        return false;
    }
    let mut i: usize = 0;
    while i < a.len()
        invariant
            i <= a@.len(),
            a@.len() == b@.len(),
            forall|k: int| 0 <= k < i ==> a@[k] == b@[k],
        decreases a@.len() - i,
    {
        if a[i] != b[i] {
            return false;
        }
        i = i + 1;
    }
    assert(a@ =~= b@);
    true
}

/// Are the characters those of the text?
pub fn is_text(a: &[char], b: &str) -> (r: bool)
    ensures
        r == (a@ == b@),
{
    let cs = chars_of(b);
    same_chars(a, cs.as_slice())
}

/// Does `s` begin with `p`?
pub open spec fn begins(s: Seq<char>, p: Seq<char>) -> bool {
    p.len() <= s.len() && s.take(p.len() as int) == p
}

/// Do the characters begin with the text?
pub fn begins_with(a: &[char], b: &str) -> (r: bool)
    ensures
        r == begins(a@, b@),
{
    let cs = chars_of(b);
    if cs.len() > a.len() {
        return false;
    }
    let head = slice_subrange(a, 0, cs.len());
    assert(head@ =~= a@.take(b@.len() as int));
    same_chars(head, cs.as_slice())
}

/// Does `p` stand in `s` at place `i`?
pub open spec fn stands_at(s: Seq<char>, p: Seq<char>, i: int) -> bool {
    0 <= i && i + p.len() <= s.len() && s.subrange(i, i + p.len()) == p
}

/// Does `p` stand somewhere in `s`?
pub open spec fn occurs(s: Seq<char>, p: Seq<char>) -> bool {
    exists|i: int| #[trigger] stands_at(s, p, i)
}

/// Does `p` stand somewhere in `s`?
pub fn contains(s: &[char], p: &[char]) -> (r: bool)
    ensures
        r == occurs(s@, p@),
{
    let (n, m) = (s.len(), p.len());
    if m > n {
        assert forall|i: int| !#[trigger] stands_at(s@, p@, i) by {}
        return false;
    }
    let mut i: usize = 0;
    while i <= n - m
        invariant
            n == s@.len(),
            m == p@.len(),
            m <= n,
            i <= n - m + 1,
            forall|k: int| 0 <= k < i ==> !#[trigger] stands_at(s@, p@, k),
        decreases n - m + 1 - i,
    {
        let here = slice_subrange(s, i, i + m);
        if same_chars(here, p) {
            assert(stands_at(s@, p@, i as int));
            return true;
        }
        assert(!stands_at(s@, p@, i as int));
        if i == n - m {
            assert forall|k: int| !#[trigger] stands_at(s@, p@, k) by {
                if k == i {
                }
            }
            return false;
        }
        i = i + 1;
    }
    false
}

/// White space, as Unicode has it.
pub open spec fn is_space(c: char) -> bool {
    let x = c as u32;
    9 <= x <= 13 || x == 0x20 || x == 0x85 || x == 0xA0 || x == 0x1680 || 0x2000 <= x <= 0x200A || x
        == 0x2028 || x == 0x2029 || x == 0x202F || x == 0x205F || x == 0x3000
}

fn space(c: char) -> (r: bool)
    ensures
        r == is_space(c),
{
    let x = c as u32;
    (9 <= x && x <= 13) || x == 0x20 || x == 0x85 || x == 0xA0 || x == 0x1680 || (0x2000 <= x && x
        <= 0x200A) || x == 0x2028 || x == 0x2029 || x == 0x202F || x == 0x205F || x == 0x3000
}

/// Without the white space at the start.
pub open spec fn left_trimmed(s: Seq<char>) -> Seq<char>
    decreases s.len(),
{
    if s.len() > 0 && is_space(s[0]) {
        left_trimmed(s.drop_first())
    } else {
        s
    }
}

/// Without the white space at the end.
pub open spec fn right_trimmed(s: Seq<char>) -> Seq<char>
    decreases s.len(),
{
    if s.len() > 0 && is_space(s.last()) {
        right_trimmed(s.drop_last())
    } else {
        s
    }
}

/// Without the white space at both ends.
pub open spec fn trimmed(s: Seq<char>) -> Seq<char> {
    right_trimmed(left_trimmed(s))
}

/// Takes off the white space at the front.
fn trim_start(s: &[char]) -> (r: &[char])
    ensures
        r@ == left_trimmed(s@),
{
    let n = s.len();
    let mut a: usize = 0;
    assert(s@.skip(0) =~= s@);
    while a < n && space(s[a])
        invariant
            a <= n,
            n == s@.len(),
            left_trimmed(s@) == left_trimmed(s@.skip(a as int)),
        ensures
            a <= n,
            left_trimmed(s@) == s@.skip(a as int),
        decreases n - a,
    {
        assert(s@.skip(a as int).drop_first() =~= s@.skip(a + 1));
        a = a + 1;
    }
    let r = slice_subrange(s, a, n);
    assert(r@ =~= s@.skip(a as int));
    r
}

/// Takes off the white space at the end.
pub fn trim_end(s: &[char]) -> (r: &[char])
    ensures
        r@ == right_trimmed(s@),
{
    let mut b = s.len();
    assert(s@.take(b as int) =~= s@);
    while b > 0 && space(s[b - 1])
        invariant
            b <= s@.len(),
            right_trimmed(s@) == right_trimmed(s@.take(b as int)),
        ensures
            b <= s@.len(),
            right_trimmed(s@) == s@.take(b as int),
        decreases b,
    {
        assert(s@.take(b as int).drop_last() =~= s@.take(b - 1));
        assert(s@.take(b as int).last() == s@[b - 1]);
        b = b - 1;
    }
    let r = slice_subrange(s, 0, b);
    assert(r@ =~= s@.take(b as int));
    r
}

/// Takes off the white space at both ends.
pub fn trim(s: &[char]) -> (r: &[char])
    ensures
        r@ == trimmed(s@),
{
    trim_end(trim_start(s))
}

/// The first place at or after `i` where `c` stands.
pub open spec fn place_from(s: Seq<char>, c: char, i: int) -> Option<int>
    decreases s.len() - i,
{
    if i >= s.len() {
        None
    } else if s[i] == c {
        Some(i)
    } else {
        place_from(s, c, i + 1)
    }
}

/// The first place where `c` stands.
pub open spec fn place_of(s: Seq<char>, c: char) -> Option<int> {
    place_from(s, c, 0)
}

/// The first place where `c` stands.
pub fn find(s: &[char], c: char) -> (r: Option<usize>)
    ensures
        match r {
            Some(i) => place_of(s@, c) == Some(i as int) && i < s@.len() && s@[i as int] == c,
            None => place_of(s@, c) is None,
        },
{
    let mut i: usize = 0;
    while i < s.len()
        invariant
            i <= s@.len(),
            place_of(s@, c) == place_from(s@, c, i as int),
        decreases s@.len() - i,
    {
        if s[i] == c {
            return Some(i);
        }
        i = i + 1;
    }
    None
}

/// What stands before and after the first `c`.
pub open spec fn split_once_of(s: Seq<char>, c: char) -> Option<(Seq<char>, Seq<char>)> {
    match place_of(s, c) {
        Some(i) => Some((s.take(i), s.skip(i + 1))),
        None => None,
    }
}

/// What stands before and after the first `c`.
pub fn split_once(s: &[char], c: char) -> (r: Option<(&[char], &[char])>)
    ensures
        match r {
            Some((a, b)) => split_once_of(s@, c) == Some((a@, b@)),
            None => split_once_of(s@, c) is None,
        },
{
    let n = s.len();
    match find(s, c) {
        Some(i) => {
            let a = slice_subrange(s, 0, i);
            let b = slice_subrange(s, i + 1, n);
            assert(a@ =~= s@.take(i as int));
            assert(b@ =~= s@.skip(i + 1));
            Some((a, b))
        },
        None => None,
    }
}

/// What stands before the first `c`; everything, if there is none.
pub open spec fn before(s: Seq<char>, c: char) -> Seq<char> {
    match place_of(s, c) {
        Some(i) => s.take(i),
        None => s,
    }
}

/// What stands before the first `c`; everything, if there is none.
pub fn cut_at(s: &[char], c: char) -> (r: &[char])
    ensures
        r@ == before(s@, c),
{
    match find(s, c) {
        Some(i) => {
            let a = slice_subrange(s, 0, i);
            assert(a@ =~= s@.take(i as int));
            a
        },
        None => s,
    }
}

/// The value of a digit.
pub open spec fn digit_of(c: char, radix: int) -> Option<int> {
    let x = c as int;
    let v = if 0x30 <= x <= 0x39 {
        x - 0x30
    } else if 0x61 <= x <= 0x7A {
        x - 0x61 + 10
    } else if 0x41 <= x <= 0x5A {
        x - 0x41 + 10
    } else {
        radix
    };
    if v < radix {
        Some(v)
    } else {
        None
    }
}

fn digit(c: char, radix: u32) -> (r: Option<u32>)
    requires
        2 <= radix <= 36,
    ensures
        match r {
            Some(v) => digit_of(c, radix as int) == Some(v as int) && v < radix,
            None => digit_of(c, radix as int) is None,
        },
{
    let x = c as u32;
    let v: u32 = if 0x30 <= x && x <= 0x39 {
        x - 0x30
    } else if 0x61 <= x && x <= 0x7A {
        x - 0x61 + 10
    } else if 0x41 <= x && x <= 0x5A {
        x - 0x41 + 10
    } else {
        radix
    };
    if v < radix {
        Some(v)
    } else {
        None
    }
}

/// The number that some digits write; none if one of them is no digit.
pub open spec fn digits_value(s: Seq<char>, radix: int) -> Option<int>
    decreases s.len(),
{
    if s.len() == 0 {
        Some(0)
    } else {
        match (digits_value(s.drop_last(), radix), digit_of(s.last(), radix)) {
            (Some(v), Some(d)) => Some(v * radix + d),
            _ => None,
        }
    }
}

/// More digits never make the number smaller.
proof fn lemma_digits_grow(s: Seq<char>, radix: int, i: int, j: int)
    requires
        2 <= radix,
        0 <= i <= j <= s.len(),
    ensures
        digits_value(s.take(j), radix) matches Some(v) ==> v >= 0 && (digits_value(
            s.take(i),
            radix,
        ) matches Some(u) && u <= v),
    decreases j,
{
    if j > 0 {
        assert(s.take(j).drop_last() =~= s.take(j - 1));
        if i < j {
            lemma_digits_grow(s, radix, i, j - 1);
        } else {
            lemma_digits_grow(s, radix, j - 1, j - 1);
        }
        if digits_value(s.take(j - 1), radix) is Some {
            let v = digits_value(s.take(j - 1), radix)->0;
            assert(v <= v * radix && 0 <= v * radix) by (nonlinear_arith)
                requires
                    v >= 0,
                    radix >= 2,
            ;
        }
    }
}

/// The number that some digits write, if there is at least one and the number is at most
/// `max`.
pub open spec fn magnitude(s: Seq<char>, radix: int, max: int) -> Option<int> {
    match digits_value(s, radix) {
        Some(v) => if s.len() > 0 && v <= max {
            Some(v)
        } else {
            None
        },
        None => None,
    }
}

fn parse_digits(s: &[char], radix: u32, max: u64) -> (r: Option<u64>)
    requires
        2 <= radix <= 36,
    ensures
        match r {
            Some(v) => magnitude(s@, radix as int, max as int) == Some(v as int),
            None => magnitude(s@, radix as int, max as int) is None,
        },
{
    if s.len() == 0 {
        return None;
    }
    let mut v: u64 = 0;
    let mut i: usize = 0;
    assert(s@.take(s@.len() as int) =~= s@);
    while i < s.len()
        invariant
            i <= s@.len(),
            2 <= radix <= 36,
            v <= max,
            digits_value(s@.take(i as int), radix as int) == Some(v as int),
            s@.take(s@.len() as int) == s@,
        decreases s@.len() - i,
    {
        proof {
            assert(s@.take(i + 1).drop_last() =~= s@.take(i as int));
            lemma_digits_grow(s@, radix as int, i + 1, s@.len() as int);
            assert(0 <= v * radix <= 0xFFFF_FFFF_FFFF_FFFF * 36) by (nonlinear_arith)
                requires
                    0 <= v <= 0xFFFF_FFFF_FFFF_FFFF,
                    0 <= radix <= 36,
            ;
        }
        match digit(s[i], radix) {
            None => {
                return None;
            },
            Some(d) => {
                let next: u128 = v as u128 * radix as u128 + d as u128;
                if next > max as u128 {
                    return None;
                }
                v = next as u64;
            },
        }
        i = i + 1;
    }
    Some(v)
}

/// Without a plus sign at the start.
pub open spec fn without_plus(s: Seq<char>) -> Seq<char> {
    if s.len() > 0 && s[0] == '+' {
        s.drop_first()
    } else {
        s
    }
}

/// A whole number from 0 to `max`, with or without a plus sign.
pub open spec fn unsigned(s: Seq<char>, radix: int, max: int) -> Option<int> {
    magnitude(without_plus(s), radix, max)
}

/// Reads a whole number from 0 to `max`.
pub fn parse_unsigned(s: &[char], radix: u32, max: u64) -> (r: Option<u64>)
    requires
        2 <= radix <= 36,
    ensures
        match r {
            Some(v) => unsigned(s@, radix as int, max as int) == Some(v as int) && v <= max,
            None => unsigned(s@, radix as int, max as int) is None,
        },
{
    if s.len() > 0 && s[0] == '+' {
        let rest = slice_subrange(s, 1, s.len());
        assert(rest@ =~= s@.drop_first());
        parse_digits(rest, radix, max)
    } else {
        parse_digits(s, radix, max)
    }
}

/// A whole number that fits in 64 bits with a sign.
pub open spec fn signed(s: Seq<char>, radix: int) -> Option<int> {
    if s.len() > 0 && s[0] == '-' {
        match magnitude(s.drop_first(), radix, 0x8000_0000_0000_0000) {
            Some(v) => Some(-v),
            None => None,
        }
    } else {
        unsigned(s, radix, i64::MAX as int)
    }
}

/// Reads a whole number that fits in 64 bits with a sign.
pub fn parse_signed(s: &[char], radix: u32) -> (r: Option<i64>)
    requires
        2 <= radix <= 36,
    ensures
        match r {
            Some(v) => signed(s@, radix as int) == Some(v as int),
            None => signed(s@, radix as int) is None,
        },
{
    if s.len() > 0 && s[0] == '-' {
        let rest = slice_subrange(s, 1, s.len());
        assert(rest@ =~= s@.drop_first());
        match parse_digits(rest, radix, 0x8000_0000_0000_0000) {
            Some(v) => {
                if v == 0x8000_0000_0000_0000 {
                    Some(i64::MIN)
                } else {
                    Some(-(v as i64))
                }
            },
            None => None,
        }
    } else {
        match parse_unsigned(s, radix, i64::MAX as u64) {
            Some(v) => Some(v as i64),
            None => None,
        }
    }
}

/// A reading of text: the words that ended so far, and the one that is being read.
pub open spec fn word_scan(s: Seq<char>, n: int) -> (Seq<Seq<char>>, Seq<char>)
    decreases n,
{
    if n <= 0 {
        (Seq::empty(), Seq::empty())
    } else {
        let (ws, cur) = word_scan(s, n - 1);
        if !is_space(s[n - 1]) {
            (ws, cur.push(s[n - 1]))
        } else if cur.len() > 0 {
            (ws.push(cur), Seq::empty())
        } else {
            (ws, cur)
        }
    }
}

/// The words of a text: what stands between white space.
pub open spec fn words(s: Seq<char>) -> Seq<Seq<char>> {
    let (ws, cur) = word_scan(s, s.len() as int);
    if cur.len() > 0 {
        ws.push(cur)
    } else {
        ws
    }
}

/// A reading of text: the lines that ended so far, and the one that is being read.
pub open spec fn line_scan(s: Seq<char>, n: int) -> (Seq<Seq<char>>, Seq<char>)
    decreases n,
{
    if n <= 0 {
        (Seq::empty(), Seq::empty())
    } else {
        let (ls, cur) = line_scan(s, n - 1);
        if s[n - 1] != '\n' {
            (ls, cur.push(s[n - 1]))
        } else if cur.len() > 0 && cur.last() == '\r' {
            (ls.push(cur.drop_last()), Seq::empty())
        } else {
            (ls.push(cur), Seq::empty())
        }
    }
}

/// The lines of a text. The last one may lack its line end.
pub open spec fn lines(s: Seq<char>) -> Seq<Seq<char>> {
    let (ls, cur) = line_scan(s, s.len() as int);
    if cur.len() > 0 {
        ls.push(cur)
    } else {
        ls
    }
}

/// The runs of characters that a row of vectors holds.
pub open spec fn texts(v: Seq<Vec<char>>) -> Seq<Seq<char>> {
    Seq::new(v.len(), |i: int| v[i]@)
}

proof fn lemma_texts_push(v: Seq<Vec<char>>, x: Vec<char>)
    ensures
        texts(v.push(x)) == texts(v).push(x@),
{
    assert(texts(v.push(x)) =~= texts(v).push(x@));
}

/// Splits a text at white space.
pub fn split_words(s: &[char]) -> (r: Vec<Vec<char>>)
    ensures
        texts(r@) == words(s@),
{
    let mut ws: Vec<Vec<char>> = Vec::new();
    let mut cur: Vec<char> = Vec::new();
    let mut i: usize = 0;
    assert(texts(ws@) =~= Seq::<Seq<char>>::empty());
    while i < s.len()
        invariant
            i <= s@.len(),
            (texts(ws@), cur@) == word_scan(s@, i as int),
        decreases s@.len() - i,
    {
        if !space(s[i]) {
            cur.push(s[i]);
        } else if cur.len() > 0 {
            proof {
                lemma_texts_push(ws@, cur);
            }
            ws.push(cur);
            cur = Vec::new();
        }
        i = i + 1;
    }
    if cur.len() > 0 {
        proof {
            lemma_texts_push(ws@, cur);
        }
        ws.push(cur);
    }
    ws
}

/// Splits a text into lines.
pub fn split_lines(s: &[char]) -> (r: Vec<Vec<char>>)
    ensures
        texts(r@) == lines(s@),
{
    let mut ls: Vec<Vec<char>> = Vec::new();
    let mut cur: Vec<char> = Vec::new();
    let mut i: usize = 0;
    assert(texts(ls@) =~= Seq::<Seq<char>>::empty());
    while i < s.len()
        invariant
            i <= s@.len(),
            (texts(ls@), cur@) == line_scan(s@, i as int),
        decreases s@.len() - i,
    {
        if s[i] != '\n' {
            cur.push(s[i]);
        } else {
            let n = cur.len();
            if n > 0 && cur[n - 1] == '\r' {
                let ghost before = cur@;
                let _ = cur.pop();
                assert(cur@ =~= before.drop_last());
            }
            proof {
                lemma_texts_push(ls@, cur);
            }
            ls.push(cur);
            cur = Vec::new();
        }
        i = i + 1;
    }
    if cur.len() > 0 {
        proof {
            lemma_texts_push(ls@, cur);
        }
        ls.push(cur);
    }
    ls
}

/// The hexadecimal digit of a number below 16.
pub open spec fn hex_digit(n: int) -> char {
    if n < 10 {
        (0x30 + n) as char
    } else {
        (0x61 + (n - 10)) as char
    }
}

/// The hexadecimal digit of a number below 16.
pub fn hex_char(n: u8) -> (r: char)
    requires
        n < 16,
    ensures
        r == hex_digit(n as int),
{
    if n < 10 {
        (0x30u8 + n) as char
    } else {
        (0x61u8 + (n - 10)) as char
    }
}

/// A character in lower case, if it is a letter of the Latin alphabet.
pub open spec fn low(c: char) -> char {
    if 0x41 <= c as u32 <= 0x5A {
        (c as u32 + 0x20) as char
    } else {
        c
    }
}

/// A text with the letters of the Latin alphabet in lower case.
pub open spec fn lowered(s: Seq<char>) -> Seq<char> {
    Seq::new(s.len(), |i: int| low(s[i]))
}

/// Puts the letters of the Latin alphabet in lower case.
pub fn lower(s: &[char]) -> (r: Vec<char>)
    ensures
        r@ == lowered(s@),
{
    let mut r: Vec<char> = Vec::new();
    let mut i: usize = 0;
    while i < s.len()
        invariant
            i <= s@.len(),
            r@.len() == i,
            forall|k: int| 0 <= k < i ==> #[trigger] r@[k] == low(s@[k]),
        decreases s@.len() - i,
    {
        let x = s[i] as u32;
        if x >= 0x41 && x <= 0x5A {
            r.push((x as u8 + 0x20) as char);
        } else {
            r.push(s[i]);
        }
        i = i + 1;
    }
    assert(r@ =~= lowered(s@));
    r
}

// ---- laws ----

/// A number written in a radix, most significant digit first, with small letters.
pub open spec fn written(n: int, radix: int) -> Seq<char>
    decreases n,
{
    if n < radix || radix < 2 {
        seq![hex_digit(n)]
    } else {
        proof {
            assert(n >= radix && radix >= 2 ==> 0 <= n / radix < n) by (nonlinear_arith);
        }
        written(n / radix, radix).push(hex_digit(n % radix))
    }
}

/// What was written is made of digits, and they have its value.
pub proof fn lemma_written(n: int, radix: int)
    requires
        n >= 0,
        2 <= radix <= 16,
    ensures
        written(n, radix).len() > 0,
        digits_value(written(n, radix), radix) == Some(n),
        forall|i: int|
            0 <= i < written(n, radix).len() ==> {
                let x = #[trigger] written(n, radix)[i] as int;
                0x30 <= x <= 0x39 || 0x61 <= x <= 0x66
            },
    decreases n,
{
    let w = written(n, radix);
    if n < radix {
        assert(w.drop_last() =~= Seq::<char>::empty());
        assert(digits_value(w.drop_last(), radix) == Some(0int));
        assert(digit_of(w.last(), radix) == Some(n));
        assert(0 * radix == 0);
    } else {
        assert(0 <= n / radix < n && 0 <= n % radix < radix && n == n / radix * radix + n % radix)
            by (nonlinear_arith)
            requires
                n >= radix,
                radix >= 2,
        ;
        lemma_written(n / radix, radix);
        assert(w.drop_last() =~= written(n / radix, radix));
        assert forall|i: int| 0 <= i < w.len() implies {
            let x = #[trigger] w[i] as int;
            0x30 <= x <= 0x39 || 0x61 <= x <= 0x66
        } by {
            if i < w.len() - 1 {
                assert(w[i] == written(n / radix, radix)[i]);
            }
        }
    }
}

/// A number that was written reads back as that number, if it is not too large, with or without
/// a plus sign; after a minus sign as its negative.
pub proof fn law_written_number_reads_back(n: int, radix: int, max: int)
    requires
        n >= 0,
        2 <= radix <= 16,
    ensures
        unsigned(written(n, radix), radix, max) == (if n <= max {
            Some(n)
        } else {
            None
        }),
        unsigned(seq!['+'] + written(n, radix), radix, max) == (if n <= max {
            Some(n)
        } else {
            None
        }),
        signed(written(n, radix), radix) == (if n <= 0x7FFF_FFFF_FFFF_FFFF {
            Some(n)
        } else {
            None
        }),
        signed(seq!['-'] + written(n, radix), radix) == (if n <= 0x8000_0000_0000_0000 {
            Some(-n)
        } else {
            None
        }),
        unsigned(Seq::empty(), radix, max) is None,
        unsigned(seq!['-'] + written(n, radix), radix, max) is None,
{
    let w = written(n, radix);
    lemma_written(n, radix);
    assert(w[0] as int >= 0x30);
    assert(without_plus(w) == w);
    assert((seq!['+'] + w).drop_first() =~= w);
    assert((seq!['-'] + w).drop_first() =~= w);
    let m = seq!['-'] + w;
    assert(without_plus(m) == m);
    assert(m.take(1) =~= seq!['-']);
    assert(seq!['-'].drop_last() =~= Seq::<char>::empty());
    reveal_with_fuel(digits_value, 2);
    lemma_digits_grow(m, radix, 1, m.len() as int);
    assert(m.take(m.len() as int) =~= m);
}

/// Small and capital letters are the same digits, and each digit stands for one number: ten
/// decimal digits, then the letters from a on.
pub proof fn law_digits(c: char, radix: int)
    requires
        2 <= radix <= 36,
    ensures
        0x41 <= c as int <= 0x5A ==> digit_of(c, radix) == digit_of((c as int + 0x20) as char, radix),
        digit_of(c, radix) matches Some(d) ==> 0 <= d < radix && (c as int == 0x30 + d && d < 10
            || c as int == 0x41 + d - 10 && d >= 10 || c as int == 0x61 + d - 10 && d >= 10),
        digit_of(c, radix) is None ==> forall|d: int|
            0 <= d < radix ==> c as int != #[trigger] (hex_digit(d) as int) || d >= 16,
{
}

/// Trimming takes off all white space around a text and nothing inside it.
pub proof fn law_trimming(lead: Seq<char>, s: Seq<char>, tail: Seq<char>)
    requires
        forall|i: int| 0 <= i < lead.len() ==> is_blank(#[trigger] lead[i]),
        forall|i: int| 0 <= i < tail.len() ==> is_blank(#[trigger] tail[i]),
        s.len() > 0,
        s[0] as int > 0x20 && s[0] as int <= 0x7E,
        s.last() as int > 0x20 && s.last() as int <= 0x7E,
    ensures
        trimmed(lead + s + tail) == s,
        trimmed(lead + tail) == Seq::<char>::empty(),
{
    lemma_trim_left(lead, s + tail);
    lemma_trim_right(s, tail);
    assert(lead + s + tail =~= lead + (s + tail));
    let e = Seq::<char>::empty();
    assert(lead + tail =~= (lead + tail) + e);
    assert forall|i: int| 0 <= i < (lead + tail).len() implies is_blank(#[trigger] (lead + tail)[i]) by {
        if i < lead.len() {
            assert((lead + tail)[i] == lead[i]);
        } else {
            assert((lead + tail)[i] == tail[i - lead.len()]);
        }
    }
    lemma_trim_left(lead + tail, e);
}

/// A blank, a tab or the end of a line.
pub open spec fn is_blank(c: char) -> bool {
    c == ' ' || c == '\t' || c == '\n' || c == '\r'
}

proof fn lemma_trim_left(lead: Seq<char>, s: Seq<char>)
    requires
        forall|i: int| 0 <= i < lead.len() ==> is_blank(#[trigger] lead[i]),
        s.len() > 0 ==> 0x20 < s[0] as int <= 0x7E,
    ensures
        left_trimmed(lead + s) == s,
    decreases lead.len(),
{
    if lead.len() > 0 {
        assert(is_blank(lead[0]));
        assert forall|i: int| 0 <= i < lead.drop_first().len() implies is_blank(
            #[trigger] lead.drop_first()[i],
        ) by {
            assert(lead.drop_first()[i] == lead[i + 1]);
        }
        lemma_trim_left(lead.drop_first(), s);
        assert((lead + s).drop_first() =~= lead.drop_first() + s);
    } else {
        assert(lead + s =~= s);
    }
}

proof fn lemma_trim_right(s: Seq<char>, tail: Seq<char>)
    requires
        forall|i: int| 0 <= i < tail.len() ==> is_blank(#[trigger] tail[i]),
        s.len() > 0 ==> 0x20 < s.last() as int <= 0x7E,
    ensures
        right_trimmed(s + tail) == s,
    decreases tail.len(),
{
    if tail.len() > 0 {
        assert(is_blank(tail[tail.len() - 1]));
        assert forall|i: int| 0 <= i < tail.drop_last().len() implies is_blank(
            #[trigger] tail.drop_last()[i],
        ) by {
            assert(tail.drop_last()[i] == tail[i]);
        }
        lemma_trim_right(s, tail.drop_last());
        assert((s + tail).drop_last() =~= s + tail.drop_last());
    } else {
        assert(s + tail =~= s);
    }
}

proof fn lemma_place(a: Seq<char>, c: char, b: Seq<char>, i: int)
    requires
        0 <= i <= a.len(),
        !a.contains(c),
    ensures
        place_from(a + seq![c] + b, c, i) == Some(a.len() as int),
        place_from(a, c, i) is None,
    decreases a.len() - i,
{
    let s = a + seq![c] + b;
    if i < a.len() {
        assert(a.contains(a[i]));
        assert(s[i] == a[i]);
        lemma_place(a, c, b, i + 1);
    } else {
        assert(s[i] == c);
    }
}

/// A text is split at the first separator, and only there; without one it stays whole.
pub proof fn law_split_at_the_first(a: Seq<char>, c: char, b: Seq<char>)
    requires
        !a.contains(c),
    ensures
        split_once_of(a + seq![c] + b, c) == Some((a, b)),
        before(a + seq![c] + b, c) == a,
        split_once_of(a, c) is None,
        before(a, c) == a,
{
    lemma_place(a, c, b, 0);
    assert((a + seq![c] + b).take(a.len() as int) =~= a);
    assert((a + seq![c] + b).skip((a.len() + 1) as int) =~= b);
}

/// Words with blanks between them.
pub open spec fn spaced(ws: Seq<Seq<char>>) -> Seq<char>
    decreases ws.len(),
{
    if ws.len() == 0 {
        Seq::empty()
    } else {
        spaced(ws.drop_last()) + ws.last() + seq![' ']
    }
}

/// Printable characters and no blank.
pub open spec fn is_word(w: Seq<char>) -> bool {
    w.len() > 0 && forall|i: int| 0 <= i < w.len() ==> 0x20 < #[trigger] w[i] as int <= 0x7E
}

/// A text is split at white space into the words that it was made of; more blanks make no more
/// words.
pub proof fn law_words(ws: Seq<Seq<char>>, last: Seq<char>)
    requires
        forall|i: int| 0 <= i < ws.len() ==> is_word(#[trigger] ws[i]),
        is_word(last),
    ensures
        words(spaced(ws)) == ws,
        words(spaced(ws) + last) == ws.push(last),
        words(spaced(ws) + seq![' '] + last) == ws.push(last),
{
    let t = spaced(ws);
    let e = Seq::<char>::empty();
    lemma_spaced(ws);
    let s = t + last;
    assert(s.take(t.len() as int) =~= t);
    assert(s.subrange(t.len() as int, s.len() as int) =~= last);
    lemma_word_prefix(t, s, t.len() as int);
    lemma_word_grows(s, t.len() as int, last, last.len() as int, e);
    assert(last.take(last.len() as int) =~= last);
    assert(e + last =~= last);
    let u = t + seq![' '] + last;
    assert(u.take(t.len() as int) =~= t);
    lemma_word_prefix(t, u, t.len() as int);
    assert(u.subrange((t.len() + 1) as int, u.len() as int) =~= last);
    assert(u[t.len() as int] == ' ');
    assert(word_scan(u, (t.len() + 1) as int) == word_scan(u, t.len() as int));
    lemma_word_grows(u, (t.len() + 1) as int, last, last.len() as int, e);
}

proof fn lemma_word_prefix(a: Seq<char>, s: Seq<char>, n: int)
    requires
        0 <= n <= a.len() <= s.len(),
        s.take(a.len() as int) == a,
    ensures
        word_scan(a, n) == word_scan(s, n),
    decreases n,
{
    if n > 0 {
        assert(s.take(a.len() as int)[n - 1] == s[n - 1]);
        lemma_word_prefix(a, s, n - 1);
    }
}

/// The characters of a word are added to the one that is being read.
proof fn lemma_word_grows(s: Seq<char>, at: int, w: Seq<char>, k: int, cur: Seq<char>)
    requires
        is_word(w),
        0 <= at,
        at + w.len() <= s.len(),
        s.subrange(at, at + w.len()) == w,
        0 <= k <= w.len(),
        word_scan(s, at).1 == cur,
    ensures
        word_scan(s, at + k) == (word_scan(s, at).0, cur + w.take(k)),
    decreases k,
{
    if k > 0 {
        lemma_word_grows(s, at, w, k - 1, cur);
        assert(s.subrange(at, at + w.len())[k - 1] == s[at + k - 1]);
        assert(w[k - 1] as int > 0x20);
        assert(cur + w.take(k) =~= (cur + w.take(k - 1)).push(w[k - 1]));
    } else {
        assert(cur + w.take(0) =~= cur);
    }
}

proof fn lemma_spaced(ws: Seq<Seq<char>>)
    requires
        forall|i: int| 0 <= i < ws.len() ==> is_word(#[trigger] ws[i]),
    ensures
        word_scan(spaced(ws), spaced(ws).len() as int) == (ws, Seq::<char>::empty()),
    decreases ws.len(),
{
    if ws.len() == 0 {
        assert(ws =~= Seq::empty());
    } else {
        let f = ws.drop_last();
        let w = ws.last();
        assert forall|i: int| 0 <= i < f.len() implies is_word(#[trigger] f[i]) by {
            assert(f[i] == ws[i]);
        }
        lemma_spaced(f);
        let s = spaced(ws);
        let at = spaced(f).len() as int;
        assert(is_word(ws[ws.len() - 1]));
        assert(s.take(at) =~= spaced(f));
        lemma_word_prefix(spaced(f), s, at);
        assert(s.subrange(at, at + w.len()) =~= w);
        lemma_word_grows(s, at, w, w.len() as int, Seq::empty());
        assert(Seq::<char>::empty() + w.take(w.len() as int) =~= w);
        assert(s[at + w.len()] == ' ');
        assert(f.push(w) =~= ws);
    }
}

/// Lines with line ends behind them.
pub open spec fn ended(ls: Seq<Seq<char>>, crlf: bool) -> Seq<char>
    decreases ls.len(),
{
    if ls.len() == 0 {
        Seq::empty()
    } else if crlf {
        ended(ls.drop_last(), crlf) + ls.last() + seq!['\r', '\n']
    } else {
        ended(ls.drop_last(), crlf) + ls.last() + seq!['\n']
    }
}

/// No line end inside.
pub open spec fn is_line(l: Seq<char>) -> bool {
    !l.contains('\n') && !l.contains('\r')
}

/// A text is split into the lines that it was made of, with either kind of line end; the last
/// line may lack its end.
pub proof fn law_lines(ls: Seq<Seq<char>>, crlf: bool, last: Seq<char>)
    requires
        forall|i: int| 0 <= i < ls.len() ==> is_line(#[trigger] ls[i]),
        is_line(last),
        last.len() > 0,
    ensures
        lines(ended(ls, crlf)) == ls,
        lines(ended(ls, crlf) + last) == ls.push(last),
{
    let t = ended(ls, crlf);
    lemma_ended(ls, crlf);
    let s = t + last;
    assert(s.take(t.len() as int) =~= t);
    lemma_line_prefix(t, s, t.len() as int);
    assert(s.subrange(t.len() as int, s.len() as int) =~= last);
    lemma_line_grows(s, t.len() as int, last, last.len() as int);
    assert(last.take(last.len() as int) =~= last);
}

proof fn lemma_line_prefix(a: Seq<char>, s: Seq<char>, n: int)
    requires
        0 <= n <= a.len() <= s.len(),
        s.take(a.len() as int) == a,
    ensures
        line_scan(a, n) == line_scan(s, n),
    decreases n,
{
    if n > 0 {
        assert(s.take(a.len() as int)[n - 1] == s[n - 1]);
        lemma_line_prefix(a, s, n - 1);
    }
}

proof fn lemma_line_grows(s: Seq<char>, at: int, l: Seq<char>, k: int)
    requires
        is_line(l),
        0 <= at,
        at + l.len() <= s.len(),
        s.subrange(at, at + l.len()) == l,
        0 <= k <= l.len(),
        line_scan(s, at).1 == Seq::<char>::empty(),
    ensures
        line_scan(s, at + k) == (line_scan(s, at).0, l.take(k)),
    decreases k,
{
    if k > 0 {
        lemma_line_grows(s, at, l, k - 1);
        assert(s.subrange(at, at + l.len())[k - 1] == s[at + k - 1]);
        assert(l.contains(l[k - 1]));
        assert(l.take(k) =~= l.take(k - 1).push(l[k - 1]));
    } else {
        assert(l.take(0) =~= Seq::<char>::empty());
    }
}

proof fn lemma_ended(ls: Seq<Seq<char>>, crlf: bool)
    requires
        forall|i: int| 0 <= i < ls.len() ==> is_line(#[trigger] ls[i]),
    ensures
        line_scan(ended(ls, crlf), ended(ls, crlf).len() as int) == (ls, Seq::<char>::empty()),
    decreases ls.len(),
{
    if ls.len() == 0 {
        assert(ls =~= Seq::empty());
    } else {
        let f = ls.drop_last();
        let l = ls.last();
        assert forall|i: int| 0 <= i < f.len() implies is_line(#[trigger] f[i]) by {
            assert(f[i] == ls[i]);
        }
        lemma_ended(f, crlf);
        let s = ended(ls, crlf);
        let at = ended(f, crlf).len() as int;
        assert(is_line(ls[ls.len() - 1]));
        assert(s.take(at) =~= ended(f, crlf));
        lemma_line_prefix(ended(f, crlf), s, at);
        assert(s.subrange(at, at + l.len()) =~= l);
        lemma_line_grows(s, at, l, l.len() as int);
        assert(l.take(l.len() as int) =~= l);
        if crlf {
            assert(s[at + l.len()] == '\r');
            assert(s[at + l.len() + 1] == '\n');
            assert(l.push('\r').drop_last() =~= l);
            assert(line_scan(s, at + l.len() + 1) == (f, l.push('\r')));
            assert(line_scan(s, at + l.len() + 2) == (f.push(l), Seq::<char>::empty()));
        } else {
            assert(s[at + l.len()] == '\n');
            if l.len() > 0 {
                assert(l.contains(l.last()));
            }
        }
        assert(f.push(l) =~= ls);
    }
}

/// Lower case: the letters from A to Z become those from a to z, and nothing else changes.
pub proof fn law_lowered(s: Seq<char>, i: int)
    requires
        0 <= i < s.len(),
    ensures
        lowered(s).len() == s.len(),
        0x41 <= s[i] as int <= 0x5A ==> lowered(s)[i] as int == s[i] as int + 0x20,
        !(0x41 <= s[i] as int <= 0x5A) ==> lowered(s)[i] == s[i],
{
    lemma_low(s[i]);
}

proof fn lemma_low(c: char)
    ensures
        0x41 <= c as int <= 0x5A ==> low(c) as int == c as int + 0x20,
        !(0x41 <= c as int <= 0x5A) ==> low(c) == c,
{
}

/// A text stands in another just if the other is made of something, the text, and something.
pub proof fn law_occurs(a: Seq<char>, p: Seq<char>, b: Seq<char>)
    ensures
        occurs(a + p + b, p),
        p.len() > a.len() ==> !occurs(a, p),
{
    let s = a + p + b;
    assert(s.subrange(a.len() as int, (a.len() + p.len()) as int) =~= p);
    assert(stands_at(s, p, a.len() as int));
}

} // verus!
