//! The topology file: which virtual device hangs on which port.
//!
//! ```toml
//! [[i2c_slave]]
//! port = 1
//! name = "mpu6050"
//! addr = 0x68
//! model = "mpu6050"
//! source = "imu"
//! ```
//!
//! The file is written in a part of TOML: tables and arrays of tables, with texts, whole
//! numbers, decimal numbers and truth values. A decimal number is kept as it was written.
use crate::machine::rig::{I2cSlave, RigView, Source, SpiSlave, UartSlave};
use crate::machine::Machine;
use crate::text;
use vstd::prelude::*;
use vstd::slice::slice_subrange;

verus! {

/// A value.
#[derive(Debug, PartialEq)]
pub enum TomlValue {
    Str(String),
    Int(i64),
    /// A decimal number, as it was written.
    Float(String),
    Bool(bool),
}

/// A value in the model.
pub enum ValueView {
    Str(Seq<char>),
    Int(i64),
    Float(Seq<char>),
    Bool(bool),
}

impl View for TomlValue {
    type V = ValueView;

    open spec fn view(&self) -> ValueView {
        match self {
            TomlValue::Str(s) => ValueView::Str(s@),
            TomlValue::Int(v) => ValueView::Int(*v),
            TomlValue::Float(s) => ValueView::Float(s@),
            TomlValue::Bool(b) => ValueView::Bool(*b),
        }
    }
}

/// A number that may have a fraction.
#[derive(Debug, PartialEq)]
pub enum Decimal<'a> {
    Written(&'a str),
    Whole(i64),
}

impl TomlValue {
    /// The text, if it is one.
    pub fn as_str(&self) -> (r: Option<&str>)
        ensures
            match r {
                Some(s) => self@ == ValueView::Str(s@),
                None => !(self@ is Str),
            },
    {
        match self {
            TomlValue::Str(s) => Some(s.as_str()),
            _ => None,
        }
    }

    /// The whole number, if it is one.
    pub fn as_int(&self) -> (r: Option<i64>)
        ensures
            r == match self@ {
                ValueView::Int(v) => Some(v),
                _ => None,
            },
    {
        match self {
            TomlValue::Int(v) => Some(*v),
            _ => None,
        }
    }

    /// The number, if it is one: a whole number is one too.
    pub fn as_float(&self) -> (r: Option<Decimal<'_>>)
        ensures
            match r {
                Some(Decimal::Written(s)) => self@ == ValueView::Float(s@),
                Some(Decimal::Whole(v)) => self@ == ValueView::Int(v),
                None => !(self@ is Float) && !(self@ is Int),
            },
    {
        match self {
            TomlValue::Float(s) => Some(Decimal::Written(s.as_str())),
            TomlValue::Int(v) => Some(Decimal::Whole(*v)),
            _ => None,
        }
    }

    /// The truth value, if it is one.
    pub fn as_bool(&self) -> (r: Option<bool>)
        ensures
            r == match self@ {
                ValueView::Bool(v) => Some(v),
                _ => None,
            },
    {
        match self {
            TomlValue::Bool(v) => Some(*v),
            _ => None,
        }
    }
}

/// A table, or one of an array of tables.
#[derive(Debug)]
pub struct TomlSection {
    pub name: String,
    pub is_array: bool,
    pub fields: Vec<(String, TomlValue)>,
}

/// A table in the model.
#[verifier::ext_equal]
pub struct SectionView {
    pub name: Seq<char>,
    pub is_array: bool,
    pub fields: Seq<(Seq<char>, ValueView)>,
}

pub open spec fn field_views(v: Seq<(String, TomlValue)>) -> Seq<(Seq<char>, ValueView)> {
    Seq::new(v.len(), |i: int| (v[i].0@, v[i].1@))
}

impl View for TomlSection {
    type V = SectionView;

    open spec fn view(&self) -> SectionView {
        SectionView {
            name: self.name@,
            is_array: self.is_array,
            fields: field_views(self.fields@),
        }
    }
}

pub open spec fn section_views(v: Seq<TomlSection>) -> Seq<SectionView> {
    Seq::new(v.len(), |i: int| v[i]@)
}

/// The value of the first field from number `i` on with that key.
pub open spec fn value_from(
    fields: Seq<(Seq<char>, ValueView)>,
    key: Seq<char>,
    i: int,
) -> Option<ValueView>
    decreases fields.len() - i,
{
    if i >= fields.len() {
        None
    } else if fields[i].0 == key {
        Some(fields[i].1)
    } else {
        value_from(fields, key, i + 1)
    }
}

impl SectionView {
    /// The value of a field.
    pub open spec fn value(self, key: Seq<char>) -> Option<ValueView> {
        value_from(self.fields, key, 0)
    }

    /// The text in a field; the given one, if there is none.
    pub open spec fn text(self, key: Seq<char>, def: Seq<char>) -> Seq<char> {
        match self.value(key) {
            Some(ValueView::Str(s)) => s,
            _ => def,
        }
    }

    /// The low byte of the number in a field.
    pub open spec fn byte(self, key: Seq<char>) -> Option<u8> {
        match self.value(key) {
            Some(ValueView::Int(v)) => Some(v as u8),
            _ => None,
        }
    }

    /// The port; the given one, if there is none.
    pub open spec fn port(self, def: u8) -> u8 {
        match self.byte("port"@) {
            Some(v) => v,
            None => def,
        }
    }
}

impl TomlSection {
    /// The value of a field.
    pub fn get(&self, key: &str) -> (r: Option<&TomlValue>)
        ensures
            match r {
                Some(v) => self@.value(key@) == Some(v@),
                None => self@.value(key@) is None,
            },
    {
        let k = text::chars_of(key);
        let mut i: usize = 0;
        while i < self.fields.len()
            invariant
                i <= self.fields@.len(),
                k@ == key@,
                self@.value(key@) == value_from(self@.fields, key@, i as int),
            decreases self.fields@.len() - i,
        {
            assert(self@.fields[i as int] == (
                self.fields@[i as int].0@,
                self.fields@[i as int].1@,
            ));
            if text::is_text(k.as_slice(), self.fields[i].0.as_str()) {
                return Some(&self.fields[i].1);
            }
            i = i + 1;
        }
        None
    }

    /// The text in a field; the given one, if there is none.
    pub fn str_or(&self, key: &str, def: &str) -> (r: String)
        ensures
            r@ == self@.text(key@, def@),
    {
        match self.get(key) {
            Some(TomlValue::Str(s)) => s.clone(),
            _ => def.to_string(),
        }
    }

    /// The low byte of the number in a field.
    fn byte(&self, key: &str) -> (r: Option<u8>)
        ensures
            r == self@.byte(key@),
    {
        match self.get(key) {
            Some(TomlValue::Int(v)) => Some(*v as u8),
            _ => None,
        }
    }

    /// The port, counted from 1; the given one, if there is none.
    pub fn port_or(&self, def: u8) -> (r: u8)
        ensures
            r == self@.port(def),
    {
        match self.byte("port") {
            Some(v) => v,
            None => def,
        }
    }
}

/// Why a value could not be read.
#[derive(Debug)]
pub enum ValueError {
    Empty,
    /// A text without its closing quote.
    Unclosed(String),
    BadHex(String),
    /// No text, number or truth value.
    Unsupported(String),
}

/// Why a value could not be read, in the model.
pub enum ValueErrorView {
    Empty,
    Unclosed(Seq<char>),
    BadHex(Seq<char>),
    Unsupported(Seq<char>),
}

impl View for ValueError {
    type V = ValueErrorView;

    open spec fn view(&self) -> ValueErrorView {
        match self {
            ValueError::Empty => ValueErrorView::Empty,
            ValueError::Unclosed(s) => ValueErrorView::Unclosed(s@),
            ValueError::BadHex(s) => ValueErrorView::BadHex(s@),
            ValueError::Unsupported(s) => ValueErrorView::Unsupported(s@),
        }
    }
}

/// Why a file could not be read; lines are counted from 1.
#[derive(Debug)]
pub enum TomlError {
    /// An array of tables without a name.
    EmptyName { line: usize },
    /// Neither a table nor `key = value`.
    NoEquals { line: usize, text: String },
    BadValue { line: usize, error: ValueError },
    /// A key before the first table.
    NoSection { line: usize, key: String },
}

/// Why a file could not be read, in the model.
pub enum TomlErrorView {
    EmptyName { line: int },
    NoEquals { line: int, text: Seq<char> },
    BadValue { line: int, error: ValueErrorView },
    NoSection { line: int, key: Seq<char> },
}

impl View for TomlError {
    type V = TomlErrorView;

    open spec fn view(&self) -> TomlErrorView {
        match self {
            TomlError::EmptyName { line } => TomlErrorView::EmptyName { line: *line as int },
            TomlError::NoEquals { line, text } => TomlErrorView::NoEquals {
                line: *line as int,
                text: text@,
            },
            TomlError::BadValue { line, error } => TomlErrorView::BadValue {
                line: *line as int,
                error: error@,
            },
            TomlError::NoSection { line, key } => TomlErrorView::NoSection {
                line: *line as int,
                key: key@,
            },
        }
    }
}

/// Only decimal digits?
pub open spec fn all_digits(s: Seq<char>) -> bool {
    forall|i: int| 0 <= i < s.len() ==> 0x30 <= #[trigger] s[i] as u32 <= 0x39
}

/// Digits, with or without a point among or around them.
pub open spec fn is_mantissa(s: Seq<char>) -> bool {
    match text::place_of(s, '.') {
        Some(p) => s.len() > 1 && all_digits(s.take(p)) && all_digits(s.skip(p + 1)),
        None => s.len() > 0 && all_digits(s),
    }
}

/// Where the letter of the exponent stands.
pub open spec fn exponent_place(s: Seq<char>) -> Option<int> {
    text::place_of(text::lowered(s), 'e')
}

/// What follows the sign, if there is one.
pub open spec fn without_sign(s: Seq<char>) -> Seq<char> {
    if s.len() > 0 && (s[0] == '+' || s[0] == '-') {
        s.drop_first()
    } else {
        s
    }
}

/// A decimal number: a sign, if any, and then digits with a point and an exponent, if any; or
/// one of the words for what is no number or not finite.
pub open spec fn is_decimal(s: Seq<char>) -> bool {
    let t = without_sign(s);
    let l = text::lowered(t);
    ||| l == "inf"@
    ||| l == "infinity"@
    ||| l == "nan"@
    ||| match exponent_place(t) {
        Some(p) => is_mantissa(t.take(p)) && without_sign(t.skip(p + 1)).len() > 0 && all_digits(
            without_sign(t.skip(p + 1)),
        ),
        None => is_mantissa(t),
    }
}

fn digits(s: &[char]) -> (r: bool)
    ensures
        r == all_digits(s@),
{
    let mut i: usize = 0;
    while i < s.len()
        invariant
            i <= s@.len(),
            forall|k: int| 0 <= k < i ==> 0x30 <= #[trigger] s@[k] as u32 <= 0x39,
        decreases s@.len() - i,
    {
        let x = s[i] as u32;
        if x < 0x30 || x > 0x39 {
            assert(!(0x30 <= s@[i as int] as u32 <= 0x39));
            return false;
        }
        i = i + 1;
    }
    true
}

fn mantissa(s: &[char]) -> (r: bool)
    ensures
        r == is_mantissa(s@),
{
    let n = s.len();
    match text::find(s, '.') {
        Some(p) => {
            let a = slice_subrange(s, 0, p);
            let b = slice_subrange(s, p + 1, n);
            assert(a@ =~= s@.take(p as int));
            assert(b@ =~= s@.skip(p + 1));
            n > 1 && digits(a) && digits(b)
        },
        None => s.len() > 0 && digits(s),
    }
}

fn skip_sign(s: &[char]) -> (r: &[char])
    ensures
        r@ == without_sign(s@),
{
    if s.len() > 0 && (s[0] == '+' || s[0] == '-') {
        let r = slice_subrange(s, 1, s.len());
        assert(r@ =~= s@.drop_first());
        r
    } else {
        s
    }
}

/// Is it a decimal number?
fn decimal(s: &[char]) -> (r: bool)
    ensures
        r == is_decimal(s@),
{
    let t = skip_sign(s);
    let l = text::lower(t);
    if text::is_text(l.as_slice(), "inf") || text::is_text(l.as_slice(), "infinity")
        || text::is_text(l.as_slice(), "nan") {
        return true;
    }
    let n = t.len();
    match text::find(l.as_slice(), 'e') {
        Some(p) => {
            let a = slice_subrange(t, 0, p);
            let b = slice_subrange(t, p + 1, n);
            assert(a@ =~= t@.take(p as int));
            assert(b@ =~= t@.skip(p + 1));
            let d = skip_sign(b);
            mantissa(a) && d.len() > 0 && digits(d)
        },
        None => mantissa(t),
    }
}

/// The value that a text without blanks around it stands for.
pub open spec fn value_of(s: Seq<char>) -> Result<ValueView, ValueErrorView> {
    if s.len() == 0 {
        Err(ValueErrorView::Empty)
    } else if s[0] == '"' {
        if s.last() != '"' || s.len() < 2 {
            Err(ValueErrorView::Unclosed(s))
        } else {
            Ok(ValueView::Str(s.subrange(1, s.len() - 1)))
        }
    } else if s == "true"@ {
        Ok(ValueView::Bool(true))
    } else if s == "false"@ {
        Ok(ValueView::Bool(false))
    } else if s.len() >= 2 && s[0] == '0' && (s[1] == 'x' || s[1] == 'X') {
        match text::signed(s.skip(2), 16) {
            Some(v) => Ok(ValueView::Int(v as i64)),
            None => Err(ValueErrorView::BadHex(s)),
        }
    } else {
        match text::signed(s, 10) {
            Some(v) => Ok(ValueView::Int(v as i64)),
            None => if is_decimal(s) {
                Ok(ValueView::Float(s))
            } else {
                Err(ValueErrorView::Unsupported(s))
            },
        }
    }
}

/// Reads a value: a text, a truth value, a whole number or a decimal number.
pub fn parse_value(raw: &[char]) -> (r: Result<TomlValue, ValueError>)
    ensures
        match r {
            Ok(v) => value_of(text::trimmed(raw@)) == Ok::<ValueView, ValueErrorView>(v@),
            Err(e) => value_of(text::trimmed(raw@)) == Err::<ValueView, ValueErrorView>(e@),
        },
{
    let s = text::trim(raw);
    let n = s.len();
    if n == 0 {
        return Err(ValueError::Empty);
    }
    if s[0] == '"' {
        if s[n - 1] != '"' || n < 2 {
            return Err(ValueError::Unclosed(text::text_of(s)));
        }
        let inner = slice_subrange(s, 1, n - 1);
        return Ok(TomlValue::Str(text::text_of(inner)));
    }
    if text::is_text(s, "true") {
        return Ok(TomlValue::Bool(true));
    }
    if text::is_text(s, "false") {
        return Ok(TomlValue::Bool(false));
    }
    if n >= 2 && s[0] == '0' && (s[1] == 'x' || s[1] == 'X') {
        let hex = slice_subrange(s, 2, n);
        assert(hex@ =~= s@.skip(2));
        return match text::parse_signed(hex, 16) {
            Some(v) => Ok(TomlValue::Int(v)),
            None => Err(ValueError::BadHex(text::text_of(s))),
        };
    }
    match text::parse_signed(s, 10) {
        Some(v) => Ok(TomlValue::Int(v)),
        None => if decimal(s) {
            Ok(TomlValue::Float(text::text_of(s)))
        } else {
            Err(ValueError::Unsupported(text::text_of(s)))
        },
    }
}

/// Do `n` of the character stand at the front? `n` is 1 or 2.
pub open spec fn at_front(s: Seq<char>, c: char, n: int) -> bool {
    s.len() >= n && s[0] == c && (n < 2 || s[1] == c)
}

/// Do `n` of the character stand at the end? `n` is 1 or 2.
pub open spec fn at_back(s: Seq<char>, c: char, n: int) -> bool {
    s.len() >= n && s.last() == c && (n < 2 || s[s.len() - 2] == c)
}

/// What is left when `n` of the character are taken off at the front as often as they stand
/// there.
pub open spec fn front_off(s: Seq<char>, c: char, n: int) -> Seq<char>
    decreases s.len(),
{
    if n > 0 && s.len() > 0 && at_front(s, c, n) {
        front_off(s.skip(n), c, n)
    } else {
        s
    }
}

/// What is left when `n` of the character are taken off at the end as often as they stand
/// there.
pub open spec fn back_off(s: Seq<char>, c: char, n: int) -> Seq<char>
    decreases s.len(),
{
    if n > 0 && s.len() > 0 && at_back(s, c, n) {
        back_off(s.take(s.len() - n), c, n)
    } else {
        s
    }
}

fn take_front_off(s: &[char], c: char, n: usize) -> (r: &[char])
    requires
        1 <= n <= 2,
    ensures
        r@ == front_off(s@, c, n as int),
{
    let mut t = s;
    while t.len() >= n && t[0] == c && (n < 2 || t[1] == c)
        invariant
            1 <= n <= 2,
            front_off(t@, c, n as int) == front_off(s@, c, n as int),
        decreases t@.len(),
    {
        let u = slice_subrange(t, n, t.len());
        assert(u@ =~= t@.skip(n as int));
        t = u;
    }
    t
}

fn take_back_off(s: &[char], c: char, n: usize) -> (r: &[char])
    requires
        1 <= n <= 2,
    ensures
        r@ == back_off(s@, c, n as int),
{
    let mut t = s;
    while t.len() >= n && t[t.len() - 1] == c && (n < 2 || t[t.len() - 2] == c)
        invariant
            1 <= n <= 2,
            back_off(t@, c, n as int) == back_off(s@, c, n as int),
        decreases t@.len(),
    {
        let u = slice_subrange(t, 0, t.len() - n);
        assert(u@ =~= t@.take(t@.len() - n));
        t = u;
    }
    t
}

/// The name in the brackets of a table.
pub open spec fn heading(line: Seq<char>, n: int) -> Seq<char> {
    text::trimmed(back_off(front_off(line, '[', n), ']', n))
}

/// A line without its comment and the blanks around it.
pub open spec fn content(raw: Seq<char>) -> Seq<char> {
    text::trimmed(text::before(raw, '#'))
}

/// The tables after one more line.
pub open spec fn line_read(tables: Seq<SectionView>, raw: Seq<char>, number: int) -> Result<
    Seq<SectionView>,
    TomlErrorView,
> {
    let line = content(raw);
    if line.len() == 0 {
        Ok(tables)
    } else if at_front(line, '[', 2) {
        let name = heading(line, 2);
        if name.len() == 0 {
            Err(TomlErrorView::EmptyName { line: number })
        } else {
            Ok(tables.push(SectionView { name, is_array: true, fields: Seq::empty() }))
        }
    } else if line[0] == '[' {
        Ok(
            tables.push(
                SectionView { name: heading(line, 1), is_array: false, fields: Seq::empty() },
            ),
        )
    } else {
        match text::split_once_of(line, '=') {
            None => Err(TomlErrorView::NoEquals { line: number, text: line }),
            Some((left, right)) => match value_of(text::trimmed(right)) {
                Err(error) => Err(TomlErrorView::BadValue { line: number, error }),
                Ok(v) => if tables.len() == 0 {
                    Err(TomlErrorView::NoSection { line: number, key: text::trimmed(left) })
                } else {
                    let t = tables.last();
                    Ok(
                        tables.drop_last().push(
                            SectionView { fields: t.fields.push((text::trimmed(left), v)), ..t },
                        ),
                    )
                },
            },
        }
    }
}

/// The tables in the first `n` lines; or the first line that cannot be read.
pub open spec fn lines_read(ls: Seq<Seq<char>>, n: int) -> Result<Seq<SectionView>, TomlErrorView>
    decreases n,
{
    if n <= 0 {
        Ok(Seq::empty())
    } else {
        match lines_read(ls, n - 1) {
            Err(e) => Err(e),
            Ok(t) => line_read(t, ls[n - 1], n),
        }
    }
}

/// The tables of a file.
pub open spec fn tables_of(src: Seq<char>) -> Result<Seq<SectionView>, TomlErrorView> {
    lines_read(text::lines(src), text::lines(src).len() as int)
}

proof fn lemma_error_stays(ls: Seq<Seq<char>>, i: int, n: int)
    requires
        i <= n,
        lines_read(ls, i) is Err,
    ensures
        lines_read(ls, n) == lines_read(ls, i),
    decreases n - i,
{
    if i < n {
        lemma_error_stays(ls, i, n - 1);
        assert(n > 0);
    }
}

proof fn lemma_section_push(v: Seq<TomlSection>, s: TomlSection)
    ensures
        section_views(v.push(s)) == section_views(v).push(s@),
{
    assert(section_views(v.push(s)) =~= section_views(v).push(s@));
}

/// Reads one more line.
fn read_line(tables: &mut Vec<TomlSection>, raw: &[char], number: usize) -> (r: Result<
    (),
    TomlError,
>)
    ensures
        match r {
            Ok(_) => line_read(section_views(old(tables)@), raw@, number as int) == Ok::<
                Seq<SectionView>,
                TomlErrorView,
            >(section_views(final(tables)@)),
            Err(e) => line_read(section_views(old(tables)@), raw@, number as int) == Err::<
                Seq<SectionView>,
                TomlErrorView,
            >(e@),
        },
{
    let line = text::trim(text::cut_at(raw, '#'));
    let n = line.len();
    if n == 0 {
        return Ok(());
    }
    if line[0] == '[' {
        let double = n >= 2 && line[1] == '[';
        let k: usize = if double {
            2
        } else {
            1
        };
        let name = text::trim(take_back_off(take_front_off(line, '[', k), ']', k));
        if double && name.len() == 0 {
            return Err(TomlError::EmptyName { line: number });
        }
        let s = TomlSection {
            name: text::text_of(name),
            is_array: double,
            fields: Vec::new(),
        };
        proof {
            assert(field_views(s.fields@) =~= Seq::empty());
            lemma_section_push(tables@, s);
        }
        tables.push(s);
        return Ok(());
    }
    match text::split_once(line, '=') {
        None => Err(TomlError::NoEquals { line: number, text: text::text_of(line) }),
        Some((left, right)) => {
            let value = match parse_value(right) {
                Ok(v) => v,
                Err(error) => {
                    return Err(TomlError::BadValue { line: number, error });
                },
            };
            let key = text::text_of(text::trim(left));
            let ghost t0 = tables@;
            match tables.pop() {
                None => Err(TomlError::NoSection { line: number, key }),
                Some(mut s) => {
                    let ghost f0 = s.fields@;
                    proof {
                        assert(section_views(t0).last() == s@);
                        assert(section_views(tables@) =~= section_views(t0).drop_last());
                    }
                    s.fields.push((key, value));
                    proof {
                        assert(field_views(s.fields@) =~= field_views(f0).push((key@, value@)));
                        lemma_section_push(tables@, s);
                    }
                    tables.push(s);
                    Ok(())
                },
            }
        },
    }
}

/// Reads a file: the tables in order.
pub fn parse_toml(src: &str) -> (r: Result<Vec<TomlSection>, TomlError>)
    ensures
        match r {
            Ok(v) => tables_of(src@) == Ok::<Seq<SectionView>, TomlErrorView>(section_views(v@)),
            Err(e) => tables_of(src@) == Err::<Seq<SectionView>, TomlErrorView>(e@),
        },
{
    let cs = text::chars_of(src);
    let ls = text::split_lines(cs.as_slice());
    let ghost all = text::lines(src@);
    let mut tables: Vec<TomlSection> = Vec::new();
    let mut i: usize = 0;
    proof {
        assert(text::texts(ls@).len() == ls@.len());
        assert(section_views(tables@) =~= Seq::empty());
    }
    while i < ls.len()
        invariant
            i <= ls@.len(),
            all == text::texts(ls@),
            all == text::lines(src@),
            lines_read(all, i as int) == Ok::<Seq<SectionView>, TomlErrorView>(
                section_views(tables@),
            ),
        decreases ls@.len() - i,
    {
        assert(all[i as int] == ls@[i as int]@);
        if let Err(e) = read_line(&mut tables, ls[i].as_slice(), i + 1) {
            proof {
                lemma_error_stays(all, i + 1, all.len() as int);
            }
            return Err(e);
        }
        i = i + 1;
    }
    Ok(tables)
}

/// A device to attach.
#[derive(Debug)]
pub struct TopologyNode {
    /// The bus: `i2c`, `uart` or `spi`.
    pub bus: String,
    /// The port, counted from 1.
    pub port: u8,
    /// What the device is called.
    pub name: String,
    pub model: String,
    /// Where it has its readings from.
    pub source: String,
    /// The address on an I2C bus.
    pub addr: Option<u8>,
}

/// A device to attach, in the model.
#[verifier::ext_equal]
pub struct NodeView {
    pub bus: Seq<char>,
    pub port: u8,
    pub name: Seq<char>,
    pub model: Seq<char>,
    pub source: Seq<char>,
    pub addr: Option<u8>,
}

impl View for TopologyNode {
    type V = NodeView;

    open spec fn view(&self) -> NodeView {
        NodeView {
            bus: self.bus@,
            port: self.port,
            name: self.name@,
            model: self.model@,
            source: self.source@,
            addr: self.addr,
        }
    }
}

pub open spec fn node_views(v: Seq<TopologyNode>) -> Seq<NodeView> {
    Seq::new(v.len(), |i: int| v[i]@)
}

/// A kind of bus.
#[derive(Debug, Clone, Copy, PartialEq, Eq, Structural)]
pub enum BusKind {
    I2c,
    Uart,
    Spi,
}

impl BusKind {
    pub open spec fn called(self) -> Seq<char> {
        match self {
            BusKind::I2c => "i2c"@,
            BusKind::Uart => "uart"@,
            BusKind::Spi => "spi"@,
        }
    }

    pub fn name(self) -> (r: &'static str)
        ensures
            r@ == self.called(),
    {
        match self {
            BusKind::I2c => "i2c",
            BusKind::Uart => "uart",
            BusKind::Spi => "spi",
        }
    }

    /// The table that describes a device on such a bus; also what the device is called, if it
    /// has no name.
    pub open spec fn table(self) -> Seq<char> {
        match self {
            BusKind::I2c => "i2c_slave"@,
            BusKind::Uart => "uart_slave"@,
            BusKind::Spi => "spi_slave"@,
        }
    }

    pub fn section(self) -> (r: &'static str)
        ensures
            r@ == self.table(),
    {
        match self {
            BusKind::I2c => "i2c_slave",
            BusKind::Uart => "uart_slave",
            BusKind::Spi => "spi_slave",
        }
    }
}

/// The bus that a table is about.
pub open spec fn bus_of(table: Seq<char>) -> Option<BusKind> {
    if table == BusKind::I2c.table() {
        Some(BusKind::I2c)
    } else if table == BusKind::Uart.table() {
        Some(BusKind::Uart)
    } else if table == BusKind::Spi.table() {
        Some(BusKind::Spi)
    } else {
        None
    }
}

/// Why a topology could not be set up.
#[derive(Debug)]
pub enum TopologyError {
    Toml(TomlError),
    /// A table of another name.
    UnknownSection(String),
    /// A device without a model or a source.
    Incomplete { bus: BusKind, name: String },
    /// No such model, or not with that source.
    NoModel { bus: BusKind, name: String, model: String, source: String },
    /// A file without a device.
    NoNodes,
}

/// Why a topology could not be set up, in the model.
pub enum TopologyErrorView {
    Toml(TomlErrorView),
    UnknownSection(Seq<char>),
    Incomplete { bus: BusKind, name: Seq<char> },
    NoModel { bus: BusKind, name: Seq<char>, model: Seq<char>, source: Seq<char> },
    NoNodes,
}

impl View for TopologyError {
    type V = TopologyErrorView;

    open spec fn view(&self) -> TopologyErrorView {
        match self {
            TopologyError::Toml(e) => TopologyErrorView::Toml(e@),
            TopologyError::UnknownSection(s) => TopologyErrorView::UnknownSection(s@),
            TopologyError::Incomplete { bus, name } => TopologyErrorView::Incomplete {
                bus: *bus,
                name: name@,
            },
            TopologyError::NoModel { bus, name, model, source } => TopologyErrorView::NoModel {
                bus: *bus,
                name: name@,
                model: model@,
                source: source@,
            },
            TopologyError::NoNodes => TopologyErrorView::NoNodes,
        }
    }
}

/// The sensor on an I2C bus that a model and a source name.
pub open spec fn i2c_model(model: Seq<char>, source: Seq<char>) -> Option<I2cSlave> {
    if model == "mpu6050"@ && source == "imu"@ {
        Some(I2cSlave::Mpu6050)
    } else if model == "bmp280"@ && source == "baro"@ {
        Some(I2cSlave::Bmp280)
    } else if model == "qmc5883"@ && source == "mag"@ {
        Some(I2cSlave::Qmc5883)
    } else {
        None
    }
}

/// The sensor on an SPI bus that a model and a source name.
pub open spec fn spi_model(model: Seq<char>, source: Seq<char>) -> Option<SpiSlave> {
    if model == "bmi088"@ && source == "imu"@ {
        Some(SpiSlave::board_bmi088())
    } else {
        None
    }
}

/// The receiver on a USART that a model and a source name.
pub open spec fn uart_model(model: Seq<char>, source: Seq<char>) -> Option<UartSlave> {
    if model == "nmea_gga"@ && source == "gps"@ {
        Some(UartSlave::NmeaGps)
    } else if model == "sbus"@ && source == "sbus"@ {
        Some(UartSlave::Sbus)
    } else {
        None
    }
}

impl NodeView {
    pub open spec fn no_model(self, bus: BusKind) -> TopologyErrorView {
        TopologyErrorView::NoModel {
            bus,
            name: self.name,
            model: self.model,
            source: self.source,
        }
    }

    /// The devices once this one is attached, if there is such a model.
    pub open spec fn attached(self, bus: BusKind, rig: RigView) -> Result<
        RigView,
        TopologyErrorView,
    > {
        match bus {
            BusKind::I2c => match i2c_model(self.model, self.source) {
                Some(s) => Ok(rig.with_i2c(self.port, s, Source::Fixed)),
                None => Err(self.no_model(bus)),
            },
            BusKind::Uart => match uart_model(self.model, self.source) {
                Some(s) => Ok(rig.with_uart(self.port, s, Source::Fixed)),
                None => Err(self.no_model(bus)),
            },
            BusKind::Spi => match spi_model(self.model, self.source) {
                Some(s) => Ok(rig.with_spi(self.port, s, Source::Fixed)),
                None => Err(self.no_model(bus)),
            },
        }
    }
}

fn pair_is(node: &TopologyNode, model: &str, source: &str) -> (r: bool)
    ensures
        r == (node.model@ == model@ && node.source@ == source@),
{
    let m = text::chars_of(node.model.as_str());
    let s = text::chars_of(node.source.as_str());
    text::is_text(m.as_slice(), model) && text::is_text(s.as_slice(), source)
}

fn no_model(node: &TopologyNode, bus: BusKind) -> (r: TopologyError)
    ensures
        r@ == node@.no_model(bus),
{
    TopologyError::NoModel {
        bus,
        name: node.name.clone(),
        model: node.model.clone(),
        source: node.source.clone(),
    }
}

/// The sensor on an I2C bus that a node asks for.
pub fn build_i2c_slave(node: &TopologyNode) -> (r: Result<I2cSlave, TopologyError>)
    ensures
        match r {
            Ok(s) => i2c_model(node.model@, node.source@) == Some(s),
            Err(e) => i2c_model(node.model@, node.source@) is None && e@ == node@.no_model(
                BusKind::I2c,
            ),
        },
{
    if pair_is(node, "mpu6050", "imu") {
        Ok(I2cSlave::Mpu6050)
    } else if pair_is(node, "bmp280", "baro") {
        Ok(I2cSlave::Bmp280)
    } else if pair_is(node, "qmc5883", "mag") {
        Ok(I2cSlave::Qmc5883)
    } else {
        Err(no_model(node, BusKind::I2c))
    }
}

/// The sensor on an SPI bus that a node asks for.
pub fn build_spi_slave(node: &TopologyNode) -> (r: Result<SpiSlave, TopologyError>)
    ensures
        match r {
            Ok(s) => spi_model(node.model@, node.source@) == Some(s),
            Err(e) => spi_model(node.model@, node.source@) is None && e@ == node@.no_model(
                BusKind::Spi,
            ),
        },
{
    if pair_is(node, "bmi088", "imu") {
        Ok(SpiSlave::default_bmi088())
    } else {
        Err(no_model(node, BusKind::Spi))
    }
}

/// The receiver on a USART that a node asks for.
pub fn build_uart_slave(node: &TopologyNode) -> (r: Result<UartSlave, TopologyError>)
    ensures
        match r {
            Ok(s) => uart_model(node.model@, node.source@) == Some(s),
            Err(e) => uart_model(node.model@, node.source@) is None && e@ == node@.no_model(
                BusKind::Uart,
            ),
        },
{
    if pair_is(node, "nmea_gga", "gps") {
        Ok(UartSlave::NmeaGps)
    } else if pair_is(node, "sbus", "sbus") {
        Ok(UartSlave::Sbus)
    } else {
        Err(no_model(node, BusKind::Uart))
    }
}

/// The device that a table describes.
pub open spec fn node_of(s: SectionView) -> Result<(BusKind, NodeView), TopologyErrorView> {
    match bus_of(s.name) {
        None => Err(TopologyErrorView::UnknownSection(s.name)),
        Some(bus) => {
            let node = NodeView {
                bus: bus.called(),
                port: s.port(1),
                name: s.text("name"@, bus.table()),
                model: s.text("model"@, Seq::empty()),
                source: s.text("source"@, Seq::empty()),
                addr: if bus == BusKind::I2c {
                    s.byte("addr"@)
                } else {
                    None
                },
            };
            if node.model.len() == 0 || node.source.len() == 0 {
                Err(TopologyErrorView::Incomplete { bus, name: node.name })
            } else {
                Ok((bus, node))
            }
        },
    }
}

/// The device that a table describes.
fn read_node(s: &TomlSection) -> (r: Result<(BusKind, TopologyNode), TopologyError>)
    ensures
        match r {
            Ok((bus, node)) => node_of(s@) == Ok::<(BusKind, NodeView), TopologyErrorView>(
                (bus, node@),
            ),
            Err(e) => node_of(s@) == Err::<(BusKind, NodeView), TopologyErrorView>(e@),
        },
{
    let name = text::chars_of(s.name.as_str());
    let bus = if text::is_text(name.as_slice(), "i2c_slave") {
        BusKind::I2c
    } else if text::is_text(name.as_slice(), "uart_slave") {
        BusKind::Uart
    } else if text::is_text(name.as_slice(), "spi_slave") {
        BusKind::Spi
    } else {
        return Err(TopologyError::UnknownSection(s.name.clone()));
    };
    proof {
        reveal_strlit("");
        assert(""@ =~= Seq::<char>::empty());
    }
    let addr = match bus {
        BusKind::I2c => s.byte("addr"),
        _ => None,
    };
    let node = TopologyNode {
        bus: bus.name().to_string(),
        port: s.port_or(1),
        name: s.str_or("name", bus.section()),
        model: s.str_or("model", ""),
        source: s.str_or("source", ""),
        addr,
    };
    if text::chars_of(node.model.as_str()).len() == 0 || text::chars_of(
        node.source.as_str(),
    ).len() == 0 {
        return Err(TopologyError::Incomplete { bus, name: node.name });
    }
    Ok((bus, node))
}

/// The devices and the nodes after the first `n` tables; or the first table that cannot be
/// set up, with the devices attached so far.
pub open spec fn set_up(rig: RigView, tables: Seq<SectionView>, n: int) -> (
    RigView,
    Result<Seq<NodeView>, TopologyErrorView>,
)
    decreases n,
{
    if n <= 0 {
        (rig, Ok(Seq::empty()))
    } else {
        let (r, x) = set_up(rig, tables, n - 1);
        match x {
            Err(e) => (r, Err(e)),
            Ok(nodes) => match node_of(tables[n - 1]) {
                Err(e) => (r, Err(e)),
                Ok((bus, node)) => match node.attached(bus, r) {
                    Err(e) => (r, Err(e)),
                    Ok(r2) => (r2, Ok(nodes.push(node))),
                },
            },
        }
    }
}

/// What comes of a topology file: the devices, and the nodes in order.
pub open spec fn topology(rig: RigView, src: Seq<char>) -> (
    RigView,
    Result<Seq<NodeView>, TopologyErrorView>,
) {
    match tables_of(src) {
        Err(e) => (rig, Err(TopologyErrorView::Toml(e))),
        Ok(tables) => {
            let (r, x) = set_up(rig, tables, tables.len() as int);
            match x {
                Ok(nodes) => if nodes.len() == 0 {
                    (r, Err(TopologyErrorView::NoNodes))
                } else {
                    (r, x)
                },
                Err(_) => (r, x),
            }
        },
    }
}

proof fn lemma_failure_stays(rig: RigView, tables: Seq<SectionView>, i: int, n: int)
    requires
        i <= n,
        set_up(rig, tables, i).1 is Err,
    ensures
        set_up(rig, tables, n) == set_up(rig, tables, i),
    decreases n - i,
{
    if i < n {
        lemma_failure_stays(rig, tables, i, n - 1);
        assert(n > 0);
    }
}

/// Attaches the device that a node asks for.
fn attach(m: &mut Machine, bus: BusKind, node: &TopologyNode) -> (r: Result<(), TopologyError>)
    ensures
        match r {
            Ok(_) => node@.attached(bus, old(m)@.rig) == Ok::<RigView, TopologyErrorView>(
                final(m)@.rig,
            ),
            Err(e) => node@.attached(bus, old(m)@.rig) == Err::<RigView, TopologyErrorView>(e@)
                && final(m)@.rig == old(m)@.rig,
        },
        final(m)@ == old(m)@.with_rig(final(m)@.rig),
{
    match bus {
        BusKind::I2c => match build_i2c_slave(node) {
            Ok(s) => {
                m.register_i2c_slave(node.port, s, Source::Fixed);
                Ok(())
            },
            Err(e) => Err(e),
        },
        BusKind::Uart => match build_uart_slave(node) {
            Ok(s) => {
                m.register_uart_slave(node.port, s, Source::Fixed);
                Ok(())
            },
            Err(e) => Err(e),
        },
        BusKind::Spi => match build_spi_slave(node) {
            Ok(s) => {
                m.register_spi_slave(node.port, s, Source::Fixed);
                Ok(())
            },
            Err(e) => Err(e),
        },
    }
}

/// Reads a topology file and attaches the devices that it describes. The devices before the
/// first that cannot be set up stay attached.
pub fn apply_topology(m: &mut Machine, src: &str) -> (r: Result<Vec<TopologyNode>, TopologyError>)
    ensures
        match r {
            Ok(v) => topology(old(m)@.rig, src@) == (
                final(m)@.rig,
                Ok::<Seq<NodeView>, TopologyErrorView>(node_views(v@)),
            ),
            Err(e) => topology(old(m)@.rig, src@) == (
                final(m)@.rig,
                Err::<Seq<NodeView>, TopologyErrorView>(e@),
            ),
        },
        final(m)@ == old(m)@.with_rig(final(m)@.rig),
{
    let tables = match parse_toml(src) {
        Ok(t) => t,
        Err(e) => {
            return Err(TopologyError::Toml(e));
        },
    };
    let mut nodes: Vec<TopologyNode> = Vec::new();
    let mut i: usize = 0;
    let ghost ts = section_views(tables@);
    let ghost rig = m@.rig;
    assert(node_views(nodes@) =~= Seq::empty());
    while i < tables.len()
        invariant
            i <= tables@.len(),
            ts == section_views(tables@),
            rig == old(m)@.rig,
            tables_of(src@) == Ok::<Seq<SectionView>, TomlErrorView>(ts),
            m@ == old(m)@.with_rig(m@.rig),
            set_up(rig, ts, i as int) == (
                m@.rig,
                Ok::<Seq<NodeView>, TopologyErrorView>(node_views(nodes@)),
            ),
        decreases tables@.len() - i,
    {
        assert(ts[i as int] == tables@[i as int]@);
        let (bus, node) = match read_node(&tables[i]) {
            Ok(x) => x,
            Err(e) => {
                proof {
                    lemma_failure_stays(rig, ts, i + 1, ts.len() as int);
                }
                return Err(e);
            },
        };
        if let Err(e) = attach(m, bus, &node) {
            proof {
                lemma_failure_stays(rig, ts, i + 1, ts.len() as int);
            }
            return Err(e);
        }
        proof {
            assert(node_views(nodes@.push(node)) =~= node_views(nodes@).push(node@));
        }
        nodes.push(node);
        i = i + 1;
    }
    assert(node_views(nodes@).len() == nodes@.len());
    if nodes.len() == 0 {
        return Err(TopologyError::NoNodes);
    }
    Ok(nodes)
}

proof fn lemma_one_node_per_table(rig: RigView, tables: Seq<SectionView>, n: int)
    requires
        0 <= n <= tables.len(),
    ensures
        set_up(rig, tables, n).1 matches Ok(nodes) ==> nodes.len() == n,
    decreases n,
{
    if n > 0 {
        lemma_one_node_per_table(rig, tables, n - 1);
    }
}

/// A topology file that is accepted describes at least one device, and every table of it
/// became a node.
pub proof fn law_every_table_becomes_a_node(rig: RigView, src: Seq<char>)
    ensures
        topology(rig, src).1 matches Ok(nodes) ==> nodes.len() > 0 && tables_of(src) is Ok
            && nodes.len() == tables_of(src)->Ok_0.len(),
{
    if let Ok(tables) = tables_of(src) {
        lemma_one_node_per_table(rig, tables, tables.len() as int);
    }
}

/// Values: a whole number in decimal, with a sign or without, or in hexadecimal behind `0x`; a
/// text in quotes; a truth value.
pub proof fn law_values(n: int, s: Seq<char>)
    requires
        0 <= n <= 0x7FFF_FFFF_FFFF_FFFF,
    ensures
        value_of(text::written(n, 10)) == Ok::<ValueView, ValueErrorView>(ValueView::Int(n as i64)),
        value_of(seq!['-'] + text::written(n, 10)) == Ok::<ValueView, ValueErrorView>(
            ValueView::Int((-n) as i64),
        ),
        value_of(seq!['0', 'x'] + text::written(n, 16)) == Ok::<ValueView, ValueErrorView>(
            ValueView::Int(n as i64),
        ),
        value_of(seq!['"'] + s + seq!['"']) == Ok::<ValueView, ValueErrorView>(ValueView::Str(s)),
        value_of("true"@) == Ok::<ValueView, ValueErrorView>(ValueView::Bool(true)),
        value_of("false"@) == Ok::<ValueView, ValueErrorView>(ValueView::Bool(false)),
        value_of(Seq::empty()) == Err::<ValueView, ValueErrorView>(ValueErrorView::Empty),
{
    reveal_strlit("true");
    reveal_strlit("false");
    assert("true"@[0] == 't' && "false"@[0] == 'f');
    let d = text::written(n, 10);
    text::lemma_written(n, 10);
    text::law_written_number_reads_back(n, 10, u64::MAX as int);
    assert(d[0] as int <= 0x66);
    if d.len() >= 2 {
        assert(d[1] as int <= 0x66);
    }
    assert(d != "true"@);
    assert(d != "false"@) by {
        if d == "false"@ {
            assert("false"@[2] == 'l');
            assert(d[2] as int <= 0x66);
        }
    }
    let m = seq!['-'] + d;
    assert(m[0] == '-');
    let x = seq!['0', 'x'] + text::written(n, 16);
    text::lemma_written(n, 16);
    text::law_written_number_reads_back(n, 16, u64::MAX as int);
    assert(x[0] == '0' && x[1] == 'x');
    assert(x.skip(2) =~= text::written(n, 16));
    let q = seq!['"'] + s + seq!['"'];
    assert(q[0] == '"' && q.last() == '"');
    assert(q.subrange(1, q.len() - 1) =~= s);
}

/// A name: a word without the signs of a heading, a field or a comment.
pub open spec fn is_name(s: Seq<char>) -> bool {
    &&& text::is_word(s)
    &&& !s.contains('[')
    &&& !s.contains(']')
    &&& !s.contains('#')
    &&& !s.contains('=')
}

/// A heading in double brackets begins a table of an array, one in single brackets a table.
pub proof fn law_headings(tables: Seq<SectionView>, name: Seq<char>, number: int)
    requires
        is_name(name),
    ensures
        line_read(tables, seq!['[', '['] + name + seq![']', ']'], number) == Ok::<
            Seq<SectionView>,
            TomlErrorView,
        >(tables.push(SectionView { name, is_array: true, fields: Seq::empty() })),
        line_read(tables, seq!['['] + name + seq![']'], number) == Ok::<
            Seq<SectionView>,
            TomlErrorView,
        >(tables.push(SectionView { name, is_array: false, fields: Seq::empty() })),
{
    let e = Seq::<char>::empty();
    assert(name.contains(name[0]) && name.contains(name.last()));
    text::law_trimming(e, name, e);
    assert(e + name + e =~= name);
    let two = seq!['[', '['] + name + seq![']', ']'];
    lemma_clean(seq!['[', '['], name, seq![']', ']']);
    assert(two[0] == '[' && two[1] == '[');
    let r = name + seq![']', ']'];
    assert(two.skip(2) =~= r);
    assert(r[0] == name[0]);
    assert(front_off(r, '[', 2) == r);
    assert(front_off(two, '[', 2) == r);
    assert(r.last() == ']' && r[r.len() - 2] == ']');
    assert(r.take(r.len() - 2) =~= name);
    assert(back_off(name, ']', 2) == name);
    assert(back_off(r, ']', 2) == name);
    let one = seq!['['] + name + seq![']'];
    lemma_clean(seq!['['], name, seq![']']);
    assert(one[0] == '[' && one[1] == name[0]);
    let r = name + seq![']'];
    assert(one.skip(1) =~= r);
    assert(r[0] == name[0]);
    assert(front_off(r, '[', 1) == r);
    assert(front_off(one, '[', 1) == r);
    assert(r.last() == ']');
    assert(r.take(r.len() - 1) =~= name);
    assert(back_off(name, ']', 1) == name);
    assert(back_off(r, ']', 1) == name);
}

/// A line without a comment and without blanks around it is its own content.
proof fn lemma_clean(a: Seq<char>, b: Seq<char>, c: Seq<char>)
    requires
        (a + b + c).len() > 0,
        0x20 < (a + b + c)[0] as int <= 0x7E,
        0x20 < (a + b + c).last() as int <= 0x7E,
        forall|i: int| 0 <= i < a.len() ==> a[i] != '#',
        forall|i: int| 0 <= i < c.len() ==> c[i] != '#',
        !b.contains('#'),
    ensures
        content(a + b + c) == a + b + c,
{
    let e = Seq::<char>::empty();
    let s = a + b + c;
    if s.contains('#') {
        let i = choose|i: int| 0 <= i < s.len() && s[i] == '#';
        if a.len() <= i < a.len() + b.len() {
            assert(b[i - a.len()] == '#');
        } else if i < a.len() {
            assert(a[i] == '#');
        } else {
            assert(c[i - a.len() - b.len()] == '#');
        }
    }
    text::law_split_at_the_first(s, '#', e);
    text::law_trimming(e, s, e);
    assert(e + s + e =~= s);
}

/// A line `key = value` puts a field at the end of the last table and changes no other; before
/// the first table it is refused.
pub proof fn law_fields(
    tables: Seq<SectionView>,
    key: Seq<char>,
    written: Seq<char>,
    v: ValueView,
    number: int,
)
    requires
        is_name(key),
        text::is_word(written),
        !written.contains('#'),
        value_of(written) == Ok::<ValueView, ValueErrorView>(v),
    ensures
        ({
            let r = line_read(tables, key + seq![' ', '=', ' '] + written, number);
            &&& tables.len() == 0 ==> r == Err::<Seq<SectionView>, TomlErrorView>(
                TomlErrorView::NoSection { line: number, key },
            )
            &&& tables.len() > 0 ==> r is Ok && r->Ok_0.len() == tables.len()
            &&& tables.len() > 0 ==> r->Ok_0.last().fields == tables.last().fields.push((key, v))
                && r->Ok_0.last().name == tables.last().name && r->Ok_0.last().is_array
                == tables.last().is_array
            &&& tables.len() > 0 ==> forall|i: int|
                0 <= i < tables.len() - 1 ==> #[trigger] r->Ok_0[i] == tables[i]
        }),
{
    let e = Seq::<char>::empty();
    let sp = seq![' '];
    let s = key + seq![' ', '=', ' '] + written;
    assert(s[0] == key[0] && s.last() == written.last());
    assert(key.contains(key[0]));
    assert(content(s) == s) by {
        assert(e + (key + seq![' ', '=', ' ']) + written =~= s);
        let head = key + seq![' ', '=', ' '];
        if head.contains('#') {
            let i = choose|i: int| 0 <= i < head.len() && head[i] == '#';
            if i < key.len() {
                assert(key[i] == '#');
            }
        }
        assert forall|i: int| 0 <= i < written.len() implies written[i] != '#' by {
            assert(written.contains(written[i]));
        }
        lemma_clean(e, head, written);
    }
    assert(s =~= (key + sp) + seq!['='] + (sp + written));
    if (key + sp).contains('=') {
        let i = choose|i: int| 0 <= i < (key + sp).len() && (key + sp)[i] == '=';
        if i < key.len() {
            assert(key[i] == '=');
        }
    }
    text::law_split_at_the_first(key + sp, '=', sp + written);
    text::law_trimming(e, key, sp);
    assert(e + key + sp =~= key + sp);
    text::law_trimming(sp, written, e);
    assert(sp + written + e =~= sp + written);
}

/// Of several fields with one key the first one counts.
pub proof fn law_first_field_counts(
    fields: Seq<(Seq<char>, ValueView)>,
    key: Seq<char>,
    from: int,
    i: int,
)
    requires
        0 <= from <= i < fields.len(),
        fields[i].0 == key,
        forall|j: int| from <= j < i ==> (#[trigger] fields[j]).0 != key,
    ensures
        value_from(fields, key, from) == Some(fields[i].1),
    decreases i - from,
{
    if from < i {
        law_first_field_counts(fields, key, from + 1, i);
    }
}

/// The devices that there are, by model and by what feeds them.
pub proof fn law_models(model: Seq<char>, source: Seq<char>)
    ensures
        i2c_model("mpu6050"@, "imu"@) == Some(I2cSlave::Mpu6050),
        i2c_model("bmp280"@, "baro"@) == Some(I2cSlave::Bmp280),
        i2c_model("qmc5883"@, "mag"@) == Some(I2cSlave::Qmc5883),
        spi_model("bmi088"@, "imu"@) == Some(SpiSlave::board_bmi088()),
        uart_model("nmea_gga"@, "gps"@) == Some(UartSlave::NmeaGps),
        uart_model("sbus"@, "sbus"@) == Some(UartSlave::Sbus),
        i2c_model(model, source) is Some ==> (model == "mpu6050"@ && source == "imu"@) || (model
            == "bmp280"@ && source == "baro"@) || (model == "qmc5883"@ && source == "mag"@),
        spi_model(model, source) is Some ==> model == "bmi088"@ && source == "imu"@,
        uart_model(model, source) is Some ==> (model == "nmea_gga"@ && source == "gps"@) || (model
            == "sbus"@ && source == "sbus"@),
{
    reveal_strlit("mpu6050");
    reveal_strlit("bmp280");
    reveal_strlit("qmc5883");
    reveal_strlit("nmea_gga");
    reveal_strlit("sbus");
    assert("mpu6050"@[0] == 'm' && "bmp280"@[0] == 'b' && "qmc5883"@[0] == 'q');
    assert("nmea_gga"@[0] == 'n' && "sbus"@[0] == 's');
}

/// A table names its bus, its port, its model and its source. Without a port it is port 1, and
/// without a name the name of the table stands for it; only an I2C device has an address. A table
/// without a model or a source is refused, and so is one of another name.
pub proof fn law_node_of_a_table(s: SectionView, model: Seq<char>, source: Seq<char>, port: i64)
    requires
        s.value("model"@) == Some(ValueView::Str(model)),
        s.value("source"@) == Some(ValueView::Str(source)),
        model.len() > 0,
        source.len() > 0,
        0 <= port <= 255,
    ensures
        s.name == "i2c_slave"@ ==> node_of(s) is Ok && node_of(s)->Ok_0.0 == BusKind::I2c,
        s.name == "uart_slave"@ ==> node_of(s) is Ok && node_of(s)->Ok_0.0 == BusKind::Uart,
        s.name == "spi_slave"@ ==> node_of(s) is Ok && node_of(s)->Ok_0.0 == BusKind::Spi,
        s.name != "i2c_slave"@ && s.name != "uart_slave"@ && s.name != "spi_slave"@ ==> node_of(s)
            == Err::<(BusKind, NodeView), TopologyErrorView>(
            TopologyErrorView::UnknownSection(s.name),
        ),
        node_of(s) matches Ok((bus, node)) ==> {
            &&& node.model == model
            &&& node.source == source
            &&& s.value("port"@) == Some(ValueView::Int(port)) ==> node.port == port
            &&& s.value("port"@) is None ==> node.port == 1
            &&& s.value("name"@) is None ==> node.name == s.name
            &&& s.value("name"@) matches Some(ValueView::Str(t)) ==> node.name == t
            &&& bus != BusKind::I2c ==> node.addr is None
            &&& bus == BusKind::I2c && s.value("addr"@) == Some(ValueView::Int(port)) ==> node.addr
                == Some(port as u8)
        },
{
    reveal_strlit("i2c_slave");
    reveal_strlit("uart_slave");
    reveal_strlit("spi_slave");
    assert("i2c_slave"@[0] == 'i' && "uart_slave"@[0] == 'u' && "spi_slave"@[0] == 's');
}

} // verus!
