//! The static symbols of a 32-bit little-endian ELF file.
//!
//! Where the linker puts a variable changes with every build, so whoever wants to look at one
//! asks for it by name. Names are mangled: a name is looked up by a part of it.
use crate::artifact;
use crate::bits;
use crate::text;
use vstd::prelude::*;
use vstd::slice::slice_subrange;

verus! {

/// A symbol.
#[derive(Debug)]
pub struct ElfSym {
    pub name: String,
    pub addr: u32,
    pub size: u32,
}

/// A symbol in the model.
pub struct SymView {
    pub name: Seq<char>,
    pub addr: u32,
    pub size: u32,
}

impl View for ElfSym {
    type V = SymView;

    open spec fn view(&self) -> SymView {
        SymView { name: self.name@, addr: self.addr, size: self.size }
    }
}

pub open spec fn sym_views(v: Seq<ElfSym>) -> Seq<SymView> {
    Seq::new(v.len(), |i: int| v[i]@)
}

/// The length of the file header.
pub const HEADER_LEN: usize = 52;

/// The length of what is read of a section header.
pub const SECTION_LEN: u64 = 40;

/// The length of an entry of the symbol table.
pub const SYMBOL_LEN: u64 = 16;

/// The type of a section that is a symbol table.
pub const SHT_SYMTAB: u32 = 2;

/// The half word at `o`, lowest byte first.
pub open spec fn half(b: Seq<u8>, o: int) -> int {
    b[o] + 256 * b[o + 1]
}

/// The word at `o`, lowest byte first.
pub open spec fn word(b: Seq<u8>, o: int) -> u32 {
    bits::word_of(b[o], b[o + 1], b[o + 2], b[o + 3])
}

fn half_at(b: &[u8], o: u64) -> (r: u64)
    requires
        o + 2 <= b@.len(),
    ensures
        r == half(b@, o as int),
        r < 0x1_0000,
{
    b[o as usize] as u64 + 256 * (b[o as usize + 1] as u64)
}

fn word_at(b: &[u8], o: u64) -> (r: u32)
    requires
        o + 4 <= b@.len(),
    ensures
        r == word(b@, o as int),
{
    let i = o as usize;
    bits::le_word(b[i], b[i + 1], b[i + 2], b[i + 3])
}

/// Is it a 32-bit little-endian ELF file with a section table?
pub open spec fn has_sections(b: Seq<u8>) -> bool {
    &&& b.len() >= HEADER_LEN
    &&& b[0] == 0x7f && b[1] == 0x45 && b[2] == 0x4c && b[3] == 0x46
    &&& b[4] == 1 && b[5] == 1
    &&& half(b, 0x2e) >= SECTION_LEN
    &&& word(b, 0x20) != 0
}

/// The number of sections.
pub open spec fn section_count(b: Seq<u8>) -> int {
    half(b, 0x30)
}

/// Where the header of section `i` stands.
pub open spec fn header_of(b: Seq<u8>, i: int) -> int {
    word(b, 0x20) + i * half(b, 0x2e)
}

/// Is the header of section `i` in the file?
pub open spec fn header_fits(b: Seq<u8>, i: int) -> bool {
    header_of(b, i) + SECTION_LEN <= b.len()
}

pub open spec fn least(a: int, b: int) -> int {
    if a < b {
        a
    } else {
        b
    }
}

/// The bytes of section `i`, as far as they are in the file.
pub open spec fn contents_of(b: Seq<u8>, i: int) -> Seq<u8> {
    let h = header_of(b, i);
    let off = word(b, h + 16) as int;
    b.subrange(least(off, b.len() as int), least(off + word(b, h + 20), b.len() as int))
}

/// What stands before the first zero byte.
pub open spec fn until_zero(s: Seq<u8>) -> Seq<u8>
    decreases s.len(),
{
    if s.len() == 0 || s[0] == 0 {
        Seq::empty()
    } else {
        seq![s[0]] + until_zero(s.drop_first())
    }
}

/// The entries of the symbol table from `off` on that have a name, in order.
pub open spec fn entries(b: Seq<u8>, names: Seq<u8>, off: int, end: int) -> Seq<SymView>
    decreases end - off,
{
    if off + SYMBOL_LEN <= end && off + SYMBOL_LEN <= b.len() {
        let n = word(b, off) as int;
        let rest = entries(b, names, off + SYMBOL_LEN, end);
        if n != 0 && n < names.len() {
            let s = SymView {
                name: text::decoded(until_zero(names.skip(n))),
                addr: word(b, off + 4),
                size: word(b, off + 8),
            };
            seq![s] + rest
        } else {
            rest
        }
    } else {
        Seq::empty()
    }
}

/// The symbols of section `i`; none, if it is no symbol table or its names are not there.
pub open spec fn section_symbols(b: Seq<u8>, i: int) -> Seq<SymView> {
    let h = header_of(b, i);
    let link = word(b, h + 24) as int;
    if word(b, h + 4) == SHT_SYMTAB && link < section_count(b) && header_fits(b, link) {
        let off = word(b, h + 16) as int;
        entries(b, contents_of(b, link), off, off + word(b, h + 20))
    } else {
        Seq::empty()
    }
}

/// The symbols of the sections from `i` on, up to the first whose header is not in the file.
pub open spec fn symbols_from(b: Seq<u8>, i: int) -> Seq<SymView>
    decreases section_count(b) - i,
{
    if i >= section_count(b) || !header_fits(b, i) {
        Seq::empty()
    } else {
        section_symbols(b, i) + symbols_from(b, i + 1)
    }
}

/// The symbols of a file.
pub open spec fn symbols_of(b: Seq<u8>) -> Seq<SymView> {
    if has_sections(b) {
        symbols_from(b, 0)
    } else {
        Seq::empty()
    }
}

/// Where the name that begins at `from` ends.
fn name_end(names: &[u8], from: usize) -> (r: usize)
    requires
        from <= names@.len(),
    ensures
        from <= r <= names@.len(),
        names@.subrange(from as int, r as int) == until_zero(names@.skip(from as int)),
{
    let mut i = from;
    assert(names@.subrange(from as int, from as int) + until_zero(names@.skip(from as int))
        =~= until_zero(names@.skip(from as int)));
    while i < names.len() && names[i] != 0
        invariant
            from <= i <= names@.len(),
            names@.subrange(from as int, i as int) + until_zero(names@.skip(i as int))
                == until_zero(names@.skip(from as int)),
        decreases names@.len() - i,
    {
        proof {
            let rest = names@.skip(i as int);
            assert(rest.drop_first() =~= names@.skip(i + 1));
            assert(names@.subrange(from as int, i as int) + (seq![names@[i as int]] + until_zero(
                names@.skip(i + 1),
            )) =~= names@.subrange(from as int, i + 1) + until_zero(names@.skip(i + 1)));
        }
        i = i + 1;
    }
    assert(until_zero(names@.skip(i as int)) =~= Seq::empty());
    assert(names@.subrange(from as int, i as int) + Seq::empty() =~= names@.subrange(
        from as int,
        i as int,
    ));
    i
}

proof fn lemma_views_push(v: Seq<ElfSym>, s: ElfSym)
    ensures
        sym_views(v.push(s)) == sym_views(v).push(s@),
{
    assert(sym_views(v.push(s)) =~= sym_views(v).push(s@));
}

/// Adds the entries of a symbol table to a list.
fn read_entries(b: &[u8], names: &[u8], from: u64, end: u64, out: &mut Vec<ElfSym>)
    requires
        from <= end < 0x2_0000_0000,
    ensures
        sym_views(final(out)@) == sym_views(old(out)@) + entries(
            b@,
            names@,
            from as int,
            end as int,
        ),
{
    let mut off = from;
    let ghost all = sym_views(old(out)@) + entries(b@, names@, from as int, end as int);
    while off + SYMBOL_LEN <= end && off + SYMBOL_LEN <= b.len() as u64
        invariant
            off <= end < 0x2_0000_0000,
            sym_views(out@) + entries(b@, names@, off as int, end as int) == all,
        decreases end - off,
    {
        let n = word_at(b, off) as usize;
        let ghost rest = entries(b@, names@, off + SYMBOL_LEN, end as int);
        if n != 0 && n < names.len() {
            let stop = name_end(names, n);
            let name = text::decode(slice_subrange(names, n, stop));
            let s = ElfSym { name, addr: word_at(b, off + 4), size: word_at(b, off + 8) };
            proof {
                lemma_views_push(out@, s);
                assert(sym_views(out@) + (seq![s@] + rest) =~= sym_views(out@).push(s@) + rest);
            }
            out.push(s);
        }
        off = off + SYMBOL_LEN;
    }
    assert(sym_views(out@) + Seq::empty() =~= sym_views(out@));
}

proof fn lemma_header_bound(b: Seq<u8>, i: int)
    requires
        0 <= i < 0x1_0000,
        b.len() >= HEADER_LEN,
    ensures
        0 <= half(b, 0x2e) < 0x1_0000,
        0 <= header_of(b, i) < 0x2_0000_0000,
{
    let e = half(b, 0x2e);
    assert(0 <= i * e <= 0xffff * 0xffff) by (nonlinear_arith)
        requires
            0 <= i <= 0xffff,
            0 <= e <= 0xffff,
    ;
}

fn header_at(b: &[u8], i: u64) -> (r: u64)
    requires
        i < 0x1_0000,
        b@.len() >= HEADER_LEN,
    ensures
        r == header_of(b@, i as int),
        r < 0x2_0000_0000,
{
    proof {
        lemma_header_bound(b@, i as int);
    }
    let base = word_at(b, 0x20) as u64;
    let each = half_at(b, 0x2e);
    assert(0 <= i * each <= 0xffff * 0xffff) by (nonlinear_arith)
        requires
            0 <= i <= 0xffff,
            0 <= each <= 0xffff,
    ;
    base + i * each
}

fn min(a: u64, b: u64) -> (r: u64)
    ensures
        r == least(a as int, b as int),
{
    if a < b {
        a
    } else {
        b
    }
}

/// The static symbols of an ELF file, table by table; none, if it is no such file.
pub fn symbols(b: &[u8]) -> (r: Vec<ElfSym>)
    ensures
        sym_views(r@) == symbols_of(b@),
{
    let mut out: Vec<ElfSym> = Vec::new();
    assert(sym_views(out@) =~= Seq::empty());
    let len = b.len() as u64;
    if b.len() < HEADER_LEN || b[0] != 0x7f || b[1] != 0x45 || b[2] != 0x4c || b[3] != 0x46 || b[4]
        != 1 || b[5] != 1 {
        return out;
    }
    let shnum = half_at(b, 0x30);
    if half_at(b, 0x2e) < SECTION_LEN || word_at(b, 0x20) == 0 {
        return out;
    }
    let mut i: u64 = 0;
    assert(sym_views(out@) + symbols_from(b@, 0) =~= symbols_from(b@, 0));
    while i < shnum
        invariant
            has_sections(b@),
            len == b@.len() <= usize::MAX,
            shnum == section_count(b@),
            shnum < 0x1_0000,
            i <= shnum,
            sym_views(out@) + symbols_from(b@, i as int) == symbols_of(b@),
        decreases shnum - i,
    {
        let sh = header_at(b, i);
        if sh + SECTION_LEN > len {
            assert(sym_views(out@) + Seq::empty() =~= sym_views(out@));
            return out;
        }
        let link = word_at(b, sh + 24) as u64;
        let ghost rest = symbols_from(b@, i + 1);
        let ghost before = sym_views(out@);
        if word_at(b, sh + 4) == SHT_SYMTAB && link < shnum {
            let str_sh = header_at(b, link);
            if str_sh + SECTION_LEN <= len {
                let str_off = word_at(b, str_sh + 16) as u64;
                let str_len = word_at(b, str_sh + 20) as u64;
                let names = slice_subrange(
                    b,
                    min(str_off, len) as usize,
                    min(str_off + str_len, len) as usize,
                );
                let off = word_at(b, sh + 16) as u64;
                read_entries(b, names, off, off + word_at(b, sh + 20) as u64, &mut out);
            }
        }
        proof {
            assert(sym_views(out@) =~= before + section_symbols(b@, i as int));
            assert(before + (section_symbols(b@, i as int) + rest) =~= (before + section_symbols(
                b@,
                i as int,
            )) + rest);
        }
        i = i + 1;
    }
    assert(sym_views(out@) + Seq::empty() =~= sym_views(out@));
    out
}

/// The places of the flight controller's ELF file, best first.
pub open spec fn elf_places(manifest_dir: Option<Seq<char>>) -> Seq<Seq<char>> {
    let rest = seq!["../flyctrl/app.elf"@, "flyctrl/app.elf"@];
    match manifest_dir {
        Some(d) => seq![artifact::joined(d, "../flyctrl/app.elf"@)] + rest,
        None => rest,
    }
}

/// Where the flight controller's ELF file is: where the environment says; else the first place
/// that is there; else beside the binary image, if it is there; else the best place.
pub open spec fn elf_place(
    env: Option<Seq<char>>,
    manifest_dir: Option<Seq<char>>,
    app_bin: Seq<char>,
    present: Seq<Seq<char>>,
) -> Seq<char> {
    let places = elf_places(manifest_dir);
    match env {
        Some(v) => v,
        None => match artifact::first_present(places, present, 0) {
            Some(i) => places[i],
            None => match artifact::parent_of(app_bin) {
                Some(d) => if present.contains(artifact::joined(d, "app.elf"@)) {
                    artifact::joined(d, "app.elf"@)
                } else {
                    places[0]
                },
                None => places[0],
            },
        },
    }
}

/// The places of the flight controller's ELF file, best first.
pub fn elf_candidates(manifest_dir: Option<&str>) -> (r: Vec<String>)
    ensures
        artifact::names(r@) == elf_places(artifact::opt(manifest_dir)),
{
    let mut r: Vec<String> = Vec::new();
    if let Some(d) = manifest_dir {
        r.push(artifact::join(d, "../flyctrl/app.elf"));
    }
    r.push("../flyctrl/app.elf".to_string());
    r.push("flyctrl/app.elf".to_string());
    assert(artifact::names(r@) =~= elf_places(artifact::opt(manifest_dir)));
    r
}

/// Where the flight controller's ELF file is, given what the environment says, the directory
/// of this project, where its binary image is, and which files are there.
pub fn flyctrl_app_elf(
    env: Option<&str>,
    manifest_dir: Option<&str>,
    app_bin: &str,
    present: &Vec<String>,
) -> (r: String)
    ensures
        r@ == elf_place(
            artifact::opt(env),
            artifact::opt(manifest_dir),
            app_bin@,
            artifact::names(present@),
        ),
{
    if let Some(v) = env {
        return v.to_string();
    }
    let places = elf_candidates(manifest_dir);
    let ghost ps = elf_places(artifact::opt(manifest_dir));
    let ghost there = artifact::names(present@);
    let mut i: usize = 0;
    while i < places.len()
        invariant
            i <= places@.len(),
            env is None,
            artifact::names(places@) == ps,
            ps == elf_places(artifact::opt(manifest_dir)),
            there == artifact::names(present@),
            artifact::first_present(ps, there, 0) == artifact::first_present(ps, there, i as int),
        decreases places@.len() - i,
    {
        assert(ps[i as int] == places@[i as int]@);
        if artifact::is_present(present, places[i].as_str()) {
            return places[i].clone();
        }
        i = i + 1;
    }
    if let Some(d) = artifact::parent(app_bin) {
        let beside = artifact::join(d.as_str(), "app.elf");
        if artifact::is_present(present, beside.as_str()) {
            return beside;
        }
    }
    assert(artifact::names(places@).len() == places@.len());
    assert(ps[0] == places@[0]@);
    places[0].clone()
}

/// Is it a symbol with an address whose name holds `part`?
pub open spec fn is_hit(s: SymView, part: Seq<char>) -> bool {
    text::occurs(s.name, part) && s.addr != 0
}

/// The first symbol with an address whose name holds `part`, from number `i` on.
pub open spec fn hit_from(syms: Seq<SymView>, part: Seq<char>, i: int) -> Option<SymView>
    decreases syms.len() - i,
{
    if i >= syms.len() {
        None
    } else if is_hit(syms[i], part) {
        Some(syms[i])
    } else {
        hit_from(syms, part, i + 1)
    }
}

/// The address of the first symbol whose name holds `needle` and that has an address.
pub fn app_sym(syms: &Vec<ElfSym>, needle: &str) -> (r: Option<u32>)
    ensures
        r == match hit_from(sym_views(syms@), needle@, 0) {
            Some(s) => Some(s.addr),
            None => None,
        },
{
    match app_sym_size(syms, needle) {
        Some((addr, _)) => Some(addr),
        None => None,
    }
}

/// The address and the size of the symbol that [`app_sym`] finds.
pub fn app_sym_size(syms: &Vec<ElfSym>, needle: &str) -> (r: Option<(u32, u32)>)
    ensures
        r == match hit_from(sym_views(syms@), needle@, 0) {
            Some(s) => Some((s.addr, s.size)),
            None => None,
        },
{
    let part = text::chars_of(needle);
    let mut i: usize = 0;
    while i < syms.len()
        invariant
            i <= syms@.len(),
            part@ == needle@,
            hit_from(sym_views(syms@), needle@, 0) == hit_from(
                sym_views(syms@),
                needle@,
                i as int,
            ),
        decreases syms@.len() - i,
    {
        let name = text::chars_of(syms[i].name.as_str());
        if text::contains(name.as_slice(), part.as_slice()) && syms[i].addr != 0 {
            assert(sym_views(syms@)[i as int] == syms@[i as int]@);
            return Some((syms[i].addr, syms[i].size));
        }
        i = i + 1;
    }
    None
}

proof fn lemma_hit(syms: Seq<SymView>, part: Seq<char>, i: int)
    requires
        0 <= i <= syms.len(),
    ensures
        match hit_from(syms, part, i) {
            Some(s) => is_hit(s, part) && syms.contains(s),
            None => forall|k: int| i <= k < syms.len() ==> !is_hit(#[trigger] syms[k], part),
        },
    decreases syms.len() - i,
{
    if i < syms.len() && !is_hit(syms[i], part) {
        lemma_hit(syms, part, i + 1);
    }
}

/// An address that is given is never 0 and belongs to a symbol whose name holds the part asked
/// for; there is none only if no symbol fits.
pub proof fn law_found_symbol_fits(syms: Seq<SymView>, part: Seq<char>)
    ensures
        match hit_from(syms, part, 0) {
            Some(s) => syms.contains(s) && s.addr != 0 && text::occurs(s.name, part),
            None => forall|k: int|
                0 <= k < syms.len() ==> #[trigger] syms[k].addr == 0 || !text::occurs(
                    syms[k].name,
                    part,
                ),
        },
{
    lemma_hit(syms, part, 0);
    if hit_from(syms, part, 0) is None {
        assert forall|k: int| 0 <= k < syms.len() implies #[trigger] syms[k].addr == 0
            || !text::occurs(syms[k].name, part) by {
            assert(!is_hit(syms[k], part));
        }
    }
}

/// The name of a symbol ends before the first zero byte.
pub proof fn law_names_end_at_zero(name: Seq<u8>, rest: Seq<u8>)
    requires
        !name.contains(0),
    ensures
        until_zero(name + seq![0u8] + rest) == name,
        until_zero(name) == name,
    decreases name.len(),
{
    let s = name + seq![0u8] + rest;
    if name.len() > 0 {
        let t = name.drop_first();
        assert(name.contains(name[0]));
        assert(!t.contains(0)) by {
            if t.contains(0) {
                let i = choose|i: int| 0 <= i < t.len() && t[i] == 0;
                assert(name[i + 1] == 0);
            }
        }
        law_names_end_at_zero(t, rest);
        assert(s.drop_first() =~= t + seq![0u8] + rest);
        assert(seq![name[0]] + t =~= name);
    } else {
        assert(s[0] == 0);
        assert(until_zero(name) =~= name);
        assert(until_zero(s) =~= name);
    }
}

/// A symbol of 16 bytes holds, lowest byte first, where its name begins, its address and its
/// size. Symbols come in the order of the table, and one without a name is left out.
pub proof fn law_symbol_layout(b: Seq<u8>, names: Seq<u8>, off: int, end: int)
    requires
        0 <= off,
        off + 16 <= end,
        off + 16 <= b.len(),
    ensures
        ({
            let n = b[off] + 0x100 * b[off + 1] + 0x1_0000 * b[off + 2] + 0x100_0000 * b[off + 3];
            let all = entries(b, names, off, end);
            let rest = entries(b, names, off + 16, end);
            &&& 0 < n < names.len() ==> {
                &&& all.len() == rest.len() + 1
                &&& all.skip(1) == rest
                &&& all[0].name == text::decoded(until_zero(names.skip(n)))
                &&& all[0].addr == b[off + 4] + 0x100 * b[off + 5] + 0x1_0000 * b[off + 6]
                    + 0x100_0000 * b[off + 7]
                &&& all[0].size == b[off + 8] + 0x100 * b[off + 9] + 0x1_0000 * b[off + 10]
                    + 0x100_0000 * b[off + 11]
            }
            &&& n == 0 || n >= names.len() ==> all == rest
        }),
{
    bits::law_bytes_are_digits(0, b[off], b[off + 1], b[off + 2], b[off + 3]);
    bits::law_bytes_are_digits(0, b[off + 4], b[off + 5], b[off + 6], b[off + 7]);
    bits::law_bytes_are_digits(0, b[off + 8], b[off + 9], b[off + 10], b[off + 11]);
    let all = entries(b, names, off, end);
    let rest = entries(b, names, off + 16, end);
    if all.len() == rest.len() + 1 {
        assert(all.skip(1) =~= rest);
    }
}

/// Only a table of symbols has any: a section of type 2 whose names are in a section that exists.
/// The symbols of a file are those of its sections, in order.
pub proof fn law_symbols_by_section(b: Seq<u8>, i: int)
    requires
        has_sections(b),
        0 <= i < section_count(b),
        header_fits(b, i),
    ensures
        b[0] == 0x7f && b[1] == 0x45 && b[2] == 0x4c && b[3] == 0x46 && b[4] == 1 && b[5] == 1,
        section_count(b) == b[0x30] + 256 * b[0x31],
        header_of(b, i) == b[0x20] + 0x100 * b[0x21] + 0x1_0000 * b[0x22] + 0x100_0000 * b[0x23] + i
            * (b[0x2e] + 256 * b[0x2f]),
        symbols_from(b, i) == section_symbols(b, i) + symbols_from(b, i + 1),
        ({
            let h = header_of(b, i);
            word(b, h + 4) != 2 ==> section_symbols(b, i).len() == 0
        }),
        symbols_of(b) == symbols_from(b, 0),
{
    bits::law_bytes_are_digits(0, b[0x20], b[0x21], b[0x22], b[0x23]);
}

/// The first symbol that fits is the one that is found.
pub proof fn law_first_symbol_wins(syms: Seq<SymView>, part: Seq<char>, from: int, i: int)
    requires
        0 <= from <= i < syms.len(),
        text::occurs(syms[i].name, part),
        syms[i].addr != 0,
        forall|k: int|
            from <= k < i ==> !text::occurs((#[trigger] syms[k]).name, part) || syms[k].addr == 0,
    ensures
        hit_from(syms, part, from) == Some(syms[i]),
    decreases i - from,
{
    if from < i {
        assert(!text::occurs(syms[from].name, part) || syms[from].addr == 0);
        law_first_symbol_wins(syms, part, from + 1, i);
    }
}

} // verus!
