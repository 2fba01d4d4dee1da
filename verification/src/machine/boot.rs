//! Loading firmware into memory.
//!
//! The sections of an object file that occupy memory go to their addresses; what a section
//! has no bytes for is zeroed. A loadable segment whose load address differs from its run
//! address goes to the load address too, where the start-up code copies it from. The vector
//! table then says where the firmware starts.
use crate::bits;
use crate::machine::exception;
use crate::machine::{Machine, MachineView};
use crate::memory;
use crate::memory::GuestMemory;
use object::read::elf::ProgramHeader;
use object::{Object, ObjectSection, ObjectSegment};
use vstd::prelude::*;

verus! {

/// The flag of an ELF section that occupies memory.
pub const SHF_ALLOC: u64 = 0x2;

/// Where the vector table stands.
pub const FLASH_BASE: u64 = 0x0800_0000;

/// Where the application partition stands.
pub const APP_FLASH_BASE: u64 = 0x0806_0000;

/// The first word of an application image.
pub const APP_HEADER_MAGIC: u32 = 0x4150_4800;

/// The length of the header of an application image.
pub const APP_HEADER_LEN: usize = 32;

/// What a section is for, as far as it matters for loading.
#[derive(Debug, Clone, Copy, PartialEq, Eq, Structural)]
pub enum SectionClass {
    Text,
    Data,
    ReadOnlyData,
    ReadOnlyDataWithRel,
    ReadOnlyString,
    UninitializedData,
    Other,
}

/// A section of an object file.
#[derive(Debug)]
pub struct FileSection {
    /// The flags, in an ELF file.
    pub flags: Option<u64>,
    pub addr: u64,
    pub size: u64,
    /// The bytes, if they can be read.
    pub data: Option<Vec<u8>>,
}

/// A section in the model.
pub struct SectionView {
    pub flags: Option<u64>,
    pub addr: u64,
    pub size: u64,
    pub data: Option<Seq<u8>>,
}

impl View for FileSection {
    type V = SectionView;

    open spec fn view(&self) -> SectionView {
        SectionView {
            flags: self.flags,
            addr: self.addr,
            size: self.size,
            data: match self.data {
                Some(d) => Some(d@),
                None => None,
            },
        }
    }
}

/// A loadable segment of an ELF file.
#[derive(Debug)]
pub struct FileSegment {
    /// Where it runs.
    pub vaddr: u64,
    /// Where it is loaded.
    pub paddr: u64,
    /// The bytes, if they can be read.
    pub data: Option<Vec<u8>>,
}

/// A segment in the model.
pub struct SegmentImage {
    pub vaddr: u64,
    pub paddr: u64,
    pub data: Option<Seq<u8>>,
}

impl View for FileSegment {
    type V = SegmentImage;

    open spec fn view(&self) -> SegmentImage {
        SegmentImage {
            vaddr: self.vaddr,
            paddr: self.paddr,
            data: match self.data {
                Some(d) => Some(d@),
                None => None,
            },
        }
    }
}

pub open spec fn section_views(v: Seq<FileSection>) -> Seq<SectionView> {
    Seq::new(v.len(), |i: int| v[i]@)
}

pub open spec fn segment_views(v: Seq<FileSegment>) -> Seq<SegmentImage> {
    Seq::new(v.len(), |i: int| v[i]@)
}

/// Why firmware could not be loaded.
#[derive(Debug, Clone, Copy, PartialEq, Eq, Structural)]
pub enum LoadError {
    /// No object file.
    NotObject,
    /// The bytes of a section or a segment cannot be read.
    Unreadable,
    /// A section has more bytes than its size, or a size that cannot be counted.
    Oversized,
    /// There is no memory at the address.
    NoMemory(u64),
    /// An application image without a whole header.
    TooSmall(usize),
    /// An application image that does not begin with the magic word.
    BadMagic(u32),
}

/// The sections that the object file reader finds in a file, in order; `None` if it is no
/// object file.
pub uninterp spec fn object_sections(data: Seq<u8>) -> Option<Seq<SectionView>>;

/// What the object file reader says that the sections are for, in the same order.
pub uninterp spec fn object_classes(data: Seq<u8>) -> Option<Seq<SectionClass>>;

/// The loadable segments that the object file reader finds in an ELF file, in order.
pub uninterp spec fn object_segments(data: Seq<u8>) -> Option<Seq<SegmentImage>>;

/// Reads the sections with `object::File::parse` and the `ObjectSection` methods `flags`,
/// `address`, `size` and `data`. Claimed: the outcome is a function of the bytes alone, and is
/// the one named [`object_sections`].
#[verifier::external_body]
fn read_sections(data: &[u8]) -> (r: Option<Vec<FileSection>>)
    ensures
        match r {
            Some(v) => object_sections(data@) == Some(section_views(v@)),
            None => object_sections(data@) is None,
        },
{
    let file = object::File::parse(data).ok()?;
    let section = |s: object::Section| FileSection {
        flags: match s.flags() {
            object::SectionFlags::Elf { sh_flags, .. } => Some(sh_flags.0),
            _ => None,
        },
        addr: s.address(),
        size: s.size(),
        data: s.data().ok().map(|d| d.to_vec()),
    };
    Some(file.sections().map(section).collect())
}

/// Reads what the sections are for with `object::File::parse` and `ObjectSection::kind`.
/// Claimed: the outcome is a function of the bytes alone, and is the one named
/// [`object_classes`].
#[verifier::external_body]
fn read_classes(data: &[u8]) -> (r: Option<Vec<SectionClass>>)
    ensures
        match r {
            Some(v) => object_classes(data@) == Some(v@),
            None => object_classes(data@) is None,
        },
{
    let file = object::File::parse(data).ok()?;
    let class = |s: object::Section| match s.kind() {
        object::SectionKind::Text => SectionClass::Text,
        object::SectionKind::Data => SectionClass::Data,
        object::SectionKind::ReadOnlyData => SectionClass::ReadOnlyData,
        object::SectionKind::ReadOnlyDataWithRel => SectionClass::ReadOnlyDataWithRel,
        object::SectionKind::ReadOnlyString => SectionClass::ReadOnlyString,
        object::SectionKind::UninitializedData => SectionClass::UninitializedData,
        _ => SectionClass::Other,
    };
    Some(file.sections().map(class).collect())
}

/// Reads the loadable segments with `object::File::parse` and the methods `address`, `data`
/// and `elf_program_header` of its ELF segments; another format has none. Claimed: the outcome
/// is a function of the bytes alone, and is the one named [`object_segments`].
#[verifier::external_body]
fn read_segments(data: &[u8]) -> (r: Option<Vec<FileSegment>>)
    ensures
        match r {
            Some(v) => object_segments(data@) == Some(segment_views(v@)),
            None => object_segments(data@) is None,
        },
{
    let segment = |vaddr: u64, paddr: u64, data: object::read::Result<&[u8]>| FileSegment {
        vaddr,
        paddr,
        data: data.ok().map(|d| d.to_vec()),
    };
    Some(match object::File::parse(data).ok()? {
        object::File::Elf32(f) => f.segments().map(|s| segment(s.address(),
            s.elf_program_header().p_paddr(f.endian()).into(), s.data())).collect(),
        object::File::Elf64(f) => f.segments().map(|s| segment(s.address(),
            s.elf_program_header().p_paddr(f.endian()), s.data())).collect(),
        _ => Vec::new(),
    })
}

/// Are sections of this kind code or data of the firmware?
pub open spec fn is_loaded(class: SectionClass) -> bool {
    ||| class == SectionClass::Text
    ||| class == SectionClass::Data
    ||| class == SectionClass::ReadOnlyData
    ||| class == SectionClass::ReadOnlyDataWithRel
    ||| class == SectionClass::ReadOnlyString
    ||| class == SectionClass::UninitializedData
}

/// Does the section occupy memory? In an ELF file its flags say so, elsewhere its kind does.
pub open spec fn occupies(s: SectionView, class: SectionClass) -> bool {
    match s.flags {
        Some(f) => f & SHF_ALLOC != 0,
        None => is_loaded(class),
    }
}

/// Is there memory for `len` bytes?
pub open spec fn room(mem: Map<u64, u8>, addr: u64, len: int) -> bool {
    addr + len <= u64::MAX && memory::mapped(mem, addr as int, len)
}

/// Bytes are put in place.
pub open spec fn placed(mem: Map<u64, u8>, addr: u64, data: Seq<u8>) -> (Map<u64, u8>, Result<
    (),
    LoadError,
>) {
    if room(mem, addr, data.len() as int) {
        (memory::stored(mem, addr as int, data), Ok(()))
    } else {
        (mem, Err(LoadError::NoMemory(addr)))
    }
}

/// A section is put in place, and the rest of it is zeroed.
pub open spec fn section_placed(mem: Map<u64, u8>, s: SectionView, class: SectionClass) -> (
    Map<u64, u8>,
    Result<(), LoadError>,
) {
    if !occupies(s, class) || s.size == 0 {
        (mem, Ok(()))
    } else {
        match s.data {
            None => (mem, Err(LoadError::Unreadable)),
            Some(d) => {
                let (m1, r1) = placed(mem, s.addr, d);
                if r1 is Err || s.size <= d.len() {
                    (m1, r1)
                } else {
                    placed(
                        m1,
                        (s.addr + d.len()) as u64,
                        Seq::new((s.size - d.len()) as nat, |i: int| 0u8),
                    )
                }
            },
        }
    }
}

/// The first `n` sections are put in place, up to the first that cannot be.
pub open spec fn sections_placed(
    mem: Map<u64, u8>,
    ss: Seq<SectionView>,
    cs: Seq<SectionClass>,
    n: int,
) -> (Map<u64, u8>, Result<(), LoadError>)
    decreases n,
{
    if n <= 0 {
        (mem, Ok(()))
    } else {
        let (m, r) = sections_placed(mem, ss, cs, n - 1);
        match r {
            Ok(()) => section_placed(m, ss[n - 1], class_at(cs, n - 1)),
            Err(e) => (m, Err(e)),
        }
    }
}

pub open spec fn class_at(cs: Seq<SectionClass>, i: int) -> SectionClass {
    if i < cs.len() {
        cs[i]
    } else {
        SectionClass::Other
    }
}

/// A segment goes to its load address, if that is another than its run address.
pub open spec fn segment_placed(mem: Map<u64, u8>, s: SegmentImage) -> (Map<u64, u8>, Result<
    (),
    LoadError,
>) {
    match s.data {
        None => (mem, Err(LoadError::Unreadable)),
        Some(d) => if s.paddr != s.vaddr && d.len() > 0 {
            placed(mem, s.paddr, d)
        } else {
            (mem, Ok(()))
        },
    }
}

/// The first `n` segments go to their load addresses, up to the first that cannot.
pub open spec fn segments_placed(mem: Map<u64, u8>, ss: Seq<SegmentImage>, n: int) -> (
    Map<u64, u8>,
    Result<(), LoadError>,
)
    decreases n,
{
    if n <= 0 {
        (mem, Ok(()))
    } else {
        let (m, r) = segments_placed(mem, ss, n - 1);
        match r {
            Ok(()) => segment_placed(m, ss[n - 1]),
            Err(e) => (m, Err(e)),
        }
    }
}

/// The word at an address.
pub open spec fn word_in(mem: Map<u64, u8>, addr: u64) -> Result<u32, LoadError> {
    if memory::mapped(mem, addr as int, 4) {
        Ok(exception::word_at(memory::bytes_of(mem, addr as int, 4), 0))
    } else {
        Err(LoadError::NoMemory(addr))
    }
}

/// The initial stack pointer and the reset vector.
pub open spec fn vectors_in(mem: Map<u64, u8>) -> Result<(u32, u32), LoadError> {
    match word_in(mem, FLASH_BASE) {
        Err(e) => Err(e),
        Ok(sp) => match word_in(mem, (FLASH_BASE + 4) as u64) {
            Err(e) => Err(e),
            Ok(entry) => Ok((sp, entry)),
        },
    }
}

/// An image is loaded.
pub open spec fn image_loaded(
    mem: Map<u64, u8>,
    ss: Seq<SectionView>,
    cs: Seq<SectionClass>,
    gs: Seq<SegmentImage>,
) -> (Map<u64, u8>, Result<(u32, u32), LoadError>) {
    let (m1, r1) = sections_placed(mem, ss, cs, ss.len() as int);
    match r1 {
        Err(e) => (m1, Err(e)),
        Ok(()) => {
            let (m2, r2) = segments_placed(m1, gs, gs.len() as int);
            match r2 {
                Err(e) => (m2, Err(e)),
                Ok(()) => (m2, vectors_in(m2)),
            }
        },
    }
}

/// No section that occupies memory has more bytes than its size, or a size that cannot be
/// counted.
pub open spec fn sizes_hold(ss: Seq<SectionView>, cs: Seq<SectionClass>) -> bool {
    forall|i: int| 0 <= i < ss.len() ==> may_load(#[trigger] ss[i], class_at(cs, i))
}

pub open spec fn may_load(s: SectionView, class: SectionClass) -> bool {
    occupies(s, class) ==> size_holds(s)
}

pub open spec fn size_holds(s: SectionView) -> bool {
    s.size <= usize::MAX && (s.data matches Some(d) ==> d.len() <= s.size)
}

/// An object file is loaded.
pub open spec fn file_loaded(mem: Map<u64, u8>, data: Seq<u8>) -> (Map<u64, u8>, Result<
    (u32, u32),
    LoadError,
>) {
    match (object_sections(data), object_classes(data), object_segments(data)) {
        (Some(ss), Some(cs), Some(gs)) => if sizes_hold(ss, cs) {
            image_loaded(mem, ss, cs, gs)
        } else {
            (mem, Err(LoadError::Oversized))
        },
        _ => (mem, Err(LoadError::NotObject)),
    }
}

/// The first word of an application image, and its entry point.
pub open spec fn app_word(data: Seq<u8>, i: int) -> u32 {
    exception::word_at(data, i)
}

/// An application image goes to its partition.
pub open spec fn app_loaded(mem: Map<u64, u8>, data: Seq<u8>) -> (Map<u64, u8>, Result<
    u32,
    LoadError,
>) {
    if data.len() < APP_HEADER_LEN {
        (mem, Err(LoadError::TooSmall(data.len() as usize)))
    } else if app_word(data, 0) != APP_HEADER_MAGIC {
        (mem, Err(LoadError::BadMagic(app_word(data, 0))))
    } else {
        let (m, r) = placed(mem, APP_FLASH_BASE, data);
        match r {
            Ok(()) => (m, Ok(app_word(data, 2))),
            Err(e) => (m, Err(e)),
        }
    }
}

fn place<M: GuestMemory>(mem: &mut M, addr: u64, data: &Vec<u8>) -> (r: Result<(), LoadError>)
    ensures
        (final(mem)@, r) == placed(old(mem)@, addr, data@),
{
    let len = data.len();
    if addr > u64::MAX - len as u64 || !mem.mem_write(addr, data) {
        return Err(LoadError::NoMemory(addr));
    }
    Ok(())
}

fn section_occupies(s: &FileSection, class: SectionClass) -> (r: bool)
    ensures
        r == occupies(s@, class),
{
    match s.flags {
        Some(f) => f & SHF_ALLOC != 0,
        None => match class {
            SectionClass::Text
            | SectionClass::Data
            | SectionClass::ReadOnlyData
            | SectionClass::ReadOnlyDataWithRel
            | SectionClass::ReadOnlyString
            | SectionClass::UninitializedData => true,
            SectionClass::Other => false,
        },
    }
}

fn place_section<M: GuestMemory>(mem: &mut M, s: &FileSection, class: SectionClass) -> (r: Result<
    (),
    LoadError,
>)
    requires
        may_load(s@, class),
    ensures
        (final(mem)@, r) == section_placed(old(mem)@, s@, class),
{
    if !section_occupies(s, class) || s.size == 0 {
        return Ok(());
    }
    match &s.data {
        None => Err(LoadError::Unreadable),
        Some(d) => {
            let n = d.len();
            match place(mem, s.addr, d) {
                Err(e) => Err(e),
                Ok(_) => {
                    let rest = s.size - n as u64;
                    if rest == 0 {
                        return Ok(());
                    }
                    let zeros: Vec<u8> = vec![0u8; rest as usize];
                    assert(zeros@ =~= Seq::new(rest as nat, |i: int| 0u8));
                    place(mem, s.addr + n as u64, &zeros)
                },
            }
        },
    }
}

fn place_segment<M: GuestMemory>(mem: &mut M, s: &FileSegment) -> (r: Result<(), LoadError>)
    ensures
        (final(mem)@, r) == segment_placed(old(mem)@, s@),
{
    match &s.data {
        None => Err(LoadError::Unreadable),
        Some(d) => {
            if s.paddr != s.vaddr && d.len() > 0 {
                place(mem, s.paddr, d)
            } else {
                Ok(())
            }
        },
    }
}

fn read_word<M: GuestMemory>(mem: &M, addr: u64) -> (r: Result<u32, LoadError>)
    requires
        addr + 4 <= u64::MAX,
    ensures
        r == word_in(mem@, addr),
{
    match mem.mem_read(addr, 4) {
        Some(b) => Ok(bits::le_word(b[0], b[1], b[2], b[3])),
        None => Err(LoadError::NoMemory(addr)),
    }
}

fn class_of(classes: &Vec<SectionClass>, i: usize) -> (r: SectionClass)
    ensures
        r == class_at(classes@, i as int),
{
    if i < classes.len() {
        classes[i]
    } else {
        SectionClass::Other
    }
}

/// Loads an image: sections, segments, and where to start.
pub fn load_image<M: GuestMemory>(
    mem: &mut M,
    sections: &Vec<FileSection>,
    classes: &Vec<SectionClass>,
    segments: &Vec<FileSegment>,
) -> (r: Result<(u32, u32), LoadError>)
    requires
        sizes_hold(section_views(sections@), classes@),
    ensures
        (final(mem)@, r) == image_loaded(
            old(mem)@,
            section_views(sections@),
            classes@,
            segment_views(segments@),
        ),
{
    let ghost m0 = mem@;
    let ghost ss = section_views(sections@);
    let n = sections.len();
    let mut i: usize = 0;
    while i < n
        invariant
            i <= n,
            n == sections@.len(),
            m0 == old(mem)@,
            ss == section_views(sections@),
            sizes_hold(ss, classes@),
            (mem@, Ok::<(), LoadError>(())) == sections_placed(m0, ss, classes@, i as int),
        decreases n - i,
    {
        assert(ss[i as int] == sections@[i as int]@);
        let class = class_of(classes, i);
        if let Err(e) = place_section(mem, &sections[i], class) {
            proof {
                lemma_sections_stop(m0, ss, classes@, i + 1, n as int);
            }
            return Err(e);
        }
        i = i + 1;
    }
    let ghost m1 = mem@;
    let ghost gs = segment_views(segments@);
    let k = segments.len();
    let mut i: usize = 0;
    while i < k
        invariant
            i <= k,
            k == segments@.len(),
            m0 == old(mem)@,
            gs == segment_views(segments@),
            (mem@, Ok::<(), LoadError>(())) == segments_placed(m1, gs, i as int),
            (m1, Ok::<(), LoadError>(())) == sections_placed(m0, ss, classes@, ss.len() as int),
            ss == section_views(sections@),
        decreases k - i,
    {
        assert(gs[i as int] == segments@[i as int]@);
        if let Err(e) = place_segment(mem, &segments[i]) {
            proof {
                lemma_segments_stop(m1, gs, i + 1, k as int);
            }
            return Err(e);
        }
        i = i + 1;
    }
    let sp = match read_word(mem, FLASH_BASE) {
        Ok(v) => v,
        Err(e) => {
            return Err(e);
        },
    };
    match read_word(mem, FLASH_BASE + 4) {
        Ok(entry) => Ok((sp, entry)),
        Err(e) => Err(e),
    }
}

/// An error stays the outcome.
proof fn lemma_sections_stop(
    mem: Map<u64, u8>,
    ss: Seq<SectionView>,
    cs: Seq<SectionClass>,
    i: int,
    n: int,
)
    requires
        0 <= i <= n,
        sections_placed(mem, ss, cs, i).1 is Err,
    ensures
        sections_placed(mem, ss, cs, n) == sections_placed(mem, ss, cs, i),
    decreases n - i,
{
    if i < n {
        lemma_sections_stop(mem, ss, cs, i, n - 1);
    }
}

proof fn lemma_segments_stop(mem: Map<u64, u8>, gs: Seq<SegmentImage>, i: int, n: int)
    requires
        0 <= i <= n,
        segments_placed(mem, gs, i).1 is Err,
    ensures
        segments_placed(mem, gs, n) == segments_placed(mem, gs, i),
    decreases n - i,
{
    if i < n {
        lemma_segments_stop(mem, gs, i, n - 1);
    }
}

fn sizes_are_right(sections: &Vec<FileSection>, classes: &Vec<SectionClass>) -> (r: bool)
    ensures
        r == sizes_hold(section_views(sections@), classes@),
{
    let ghost ss = section_views(sections@);
    let mut i: usize = 0;
    while i < sections.len()
        invariant
            i <= sections@.len(),
            ss == section_views(sections@),
            forall|k: int| 0 <= k < i ==> may_load(#[trigger] ss[k], class_at(classes@, k)),
        decreases sections@.len() - i,
    {
        assert(ss[i as int] == sections@[i as int]@);
        if section_occupies(&sections[i], class_of(classes, i)) {
            if sections[i].size > usize::MAX as u64 {
                assert(!may_load(ss[i as int], class_at(classes@, i as int)));
                return false;
            }
            if let Some(d) = &sections[i].data {
                if d.len() as u64 > sections[i].size {
                    assert(!may_load(ss[i as int], class_at(classes@, i as int)));
                    return false;
                }
            }
        }
        i = i + 1;
    }
    true
}

/// Loads an object file. Says where the firmware starts: the initial stack pointer and the
/// reset vector.
pub fn load_file<M: GuestMemory>(mem: &mut M, data: &[u8]) -> (r: Result<(u32, u32), LoadError>)
    ensures
        (final(mem)@, r) == file_loaded(old(mem)@, data@),
{
    let sections = match read_sections(data) {
        Some(v) => v,
        None => {
            return Err(LoadError::NotObject);
        },
    };
    let classes = match read_classes(data) {
        Some(v) => v,
        None => {
            return Err(LoadError::NotObject);
        },
    };
    let segments = match read_segments(data) {
        Some(v) => v,
        None => {
            return Err(LoadError::NotObject);
        },
    };
    if !sizes_are_right(&sections, &classes) {
        return Err(LoadError::Oversized);
    }
    load_image(mem, &sections, &classes, &segments)
}

impl Machine {
    /// Loads firmware from an object file.
    pub fn load_elf<M: GuestMemory>(&mut self, mem: &mut M, data: &[u8]) -> (r: Result<
        (),
        LoadError,
    >)
        ensures
            ({
                let (m, q) = file_loaded(old(mem)@, data@);
                &&& final(mem)@ == m
                &&& match q {
                    Ok((sp, entry)) => r is Ok && final(self)@ == (MachineView {
                        initial_sp: sp,
                        entry,
                        ..old(self)@
                    }),
                    Err(e) => r == Err::<(), LoadError>(e) && final(self)@ == old(self)@,
                }
            }),
            old(self)@.wf() ==> final(self)@.wf(),
    {
        match load_file(mem, data) {
            Ok((sp, entry)) => {
                self.set_vectors(sp, entry);
                Ok(())
            },
            Err(e) => Err(e),
        }
    }

    /// Puts an application image into its partition. The answer is its entry point.
    pub fn load_app_partition<M: GuestMemory>(mem: &mut M, data: &Vec<u8>) -> (r: Result<
        u32,
        LoadError,
    >)
        ensures
            (final(mem)@, r) == app_loaded(old(mem)@, data@),
    {
        let n = data.len();
        if n < APP_HEADER_LEN {
            return Err(LoadError::TooSmall(n));
        }
        let magic = bits::le_word(data[0], data[1], data[2], data[3]);
        if magic != APP_HEADER_MAGIC {
            return Err(LoadError::BadMagic(magic));
        }
        let entry = bits::le_word(data[8], data[9], data[10], data[11]);
        match place(mem, APP_FLASH_BASE, data) {
            Ok(_) => Ok(entry),
            Err(e) => Err(e),
        }
    }
}

/// A section that was put in place reads back as its bytes and zeros after them, and the rest
/// of memory is as it was.
pub proof fn law_section_reads_back(
    mem: Map<u64, u8>,
    s: SectionView,
    class: SectionClass,
    a: u64,
)
    requires
        occupies(s, class),
        s.size > 0,
        size_holds(s),
        section_placed(mem, s, class).1 is Ok,
    ensures
        ({
            let m = section_placed(mem, s, class).0;
            let d = s.data->0;
            m[a] == if s.addr <= a < s.addr + d.len() {
                d[a - s.addr]
            } else if s.addr + d.len() <= a < s.addr + s.size {
                0
            } else {
                mem[a]
            }
        }),
{
    let d = s.data->0;
    let m1 = placed(mem, s.addr, d).0;
    memory::law_store_then_load(mem, s.addr as int, d, a);
    if s.size > d.len() {
        let zeros = Seq::new((s.size - d.len()) as nat, |i: int| 0u8);
        memory::law_store_then_load(m1, s.addr + d.len(), zeros, a);
    }
}

/// A segment that runs elsewhere than it is loaded reads back at its load address, and the rest
/// of memory is as it was; one that runs where it is loaded changes nothing.
pub proof fn law_segment_reads_back(mem: Map<u64, u8>, s: SegmentImage, a: u64)
    requires
        segment_placed(mem, s).1 is Ok,
    ensures
        ({
            let m = segment_placed(mem, s).0;
            let d = s.data->0;
            &&& s.data is Some
            &&& s.paddr == s.vaddr ==> m == mem
            &&& s.paddr != s.vaddr ==> m[a] == if s.paddr <= a < s.paddr + d.len() {
                d[a - s.paddr]
            } else {
                mem[a]
            }
            &&& m.dom() == mem.dom()
        }),
{
    let d = s.data->0;
    if s.paddr != s.vaddr && d.len() > 0 {
        memory::law_store_then_load(mem, s.paddr as int, d, a);
    }
}

/// A section of an ELF file occupies memory just if bit 1 of its flags is set. Elsewhere the
/// sections for code, for data, for constants and for zeroed data do.
pub proof fn law_what_is_loaded(s: SectionView, class: SectionClass)
    ensures
        s.flags matches Some(f) ==> (occupies(s, class) <==> f & 2 != 0),
        s.flags is None ==> (occupies(s, class) <==> class != SectionClass::Other),
        !occupies(s, class) || s.size == 0 ==> forall|mem: Map<u64, u8>|
            (#[trigger] section_placed(mem, s, class)) == (mem, Ok::<(), LoadError>(())),
{
}

/// Sections are loaded in order: what comes later lies over what came before it. The first
/// failure is the outcome, and nothing is loaded after it.
pub proof fn law_sections_in_order(
    mem: Map<u64, u8>,
    ss: Seq<SectionView>,
    cs: Seq<SectionClass>,
    n: int,
)
    requires
        0 <= n,
        n + 1 <= ss.len(),
        n < cs.len(),
    ensures
        ({
            let (m, r) = sections_placed(mem, ss, cs, n);
            &&& r is Ok ==> sections_placed(mem, ss, cs, n + 1) == section_placed(m, ss[n], cs[n])
            &&& r is Err ==> sections_placed(mem, ss, cs, n + 1) == (m, r)
        }),
        sections_placed(mem, ss, cs, 0) == (mem, Ok::<(), LoadError>(())),
{
}

/// The firmware starts with the stack pointer in the first word of flash, at the address in the
/// second; both are little-endian. They are read once everything is in place.
pub proof fn law_start_of_the_firmware(
    mem: Map<u64, u8>,
    ss: Seq<SectionView>,
    cs: Seq<SectionClass>,
    gs: Seq<SegmentImage>,
)
    ensures
        image_loaded(mem, ss, cs, gs) matches (m, Ok((sp, entry))) ==> {
            &&& sp == m[0x0800_0000] + 0x100 * m[0x0800_0001] + 0x1_0000 * m[0x0800_0002]
                + 0x100_0000 * m[0x0800_0003]
            &&& entry == m[0x0800_0004] + 0x100 * m[0x0800_0005] + 0x1_0000 * m[0x0800_0006]
                + 0x100_0000 * m[0x0800_0007]
        },
{
    let (m, r) = image_loaded(mem, ss, cs, gs);
    if r is Ok {
        bits::law_bytes_are_digits(0, m[0x0800_0000], m[0x0800_0001], m[0x0800_0002], m[0x0800_0003]);
        bits::law_bytes_are_digits(0, m[0x0800_0004], m[0x0800_0005], m[0x0800_0006], m[0x0800_0007]);
    }
}

/// An application image of at least 32 bytes that begins with the bytes 00 48 50 41 goes to its
/// partition, byte for byte, and its entry point is the word at byte 8. Anything else is refused
/// and changes nothing.
pub proof fn law_application_image(mem: Map<u64, u8>, data: Seq<u8>, a: u64)
    requires
        data.len() <= usize::MAX,
        data.len() <= 0x1000_0000,
    ensures
        ({
            let (m, r) = app_loaded(mem, data);
            let there = memory::mapped(mem, 0x0806_0000, data.len() as int);
            let magic = data.len() >= 32 && data[0] == 0 && data[1] == 0x48 && data[2] == 0x50
                && data[3] == 0x41;
            &&& r is Ok <==> magic && there
            &&& r matches Ok(entry) ==> entry == data[8] + 0x100 * data[9] + 0x1_0000 * data[10]
                + 0x100_0000 * data[11]
            &&& r is Ok ==> m[a] == if 0x0806_0000 <= a < 0x0806_0000 + data.len() {
                data[a - 0x0806_0000]
            } else {
                mem[a]
            }
            &&& r is Err ==> m == mem
            &&& data.len() < 32 ==> r == Err::<u32, LoadError>(
                LoadError::TooSmall(data.len() as usize),
            )
            &&& data.len() >= 32 && !magic ==> (r matches Err(LoadError::BadMagic(v)) && v == data[0]
                + 0x100 * data[1] + 0x1_0000 * data[2] + 0x100_0000 * data[3])
            &&& magic && !there ==> r == Err::<u32, LoadError>(LoadError::NoMemory(0x0806_0000))
        }),
{
    if data.len() >= 32 {
        bits::law_bytes_are_digits(0, data[0], data[1], data[2], data[3]);
        bits::law_bytes_are_digits(0, data[8], data[9], data[10], data[11]);
        if memory::mapped(mem, 0x0806_0000, data.len() as int) {
            memory::law_store_then_load(mem, 0x0806_0000, data, a);
        }
    }
}

} // verus!
