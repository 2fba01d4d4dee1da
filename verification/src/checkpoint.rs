//! Checkpoints: the registers, the RAM and the time of a machine, kept so that a run can be
//! taken up again from there.
//!
//! Flash and the windows of the devices are not kept: code does not change, and writing to a
//! device would have effects of its own. The devices go on from where they are.
use crate::machine::{Machine, MachineView};
use crate::memory;
use crate::memory::GuestMemory;
use vstd::prelude::*;

verus! {

/// The number of registers that are kept: r0 to r12, SP, LR, PC, xPSR, MSP, PSP, PRIMASK,
/// BASEPRI, FAULTMASK and CONTROL.
pub const REG_COUNT: usize = 23;

/// Is the address in RAM (static or core-coupled memory)?
pub open spec fn in_ram(a: u64) -> bool {
    0x2000_0000 <= a < 0x2003_0000 || 0x1000_0000 <= a < 0x1001_0000
}

pub fn is_ram(addr: u64) -> (r: bool)
    ensures
        r == in_ram(addr),
{
    (addr >= 0x2000_0000 && addr < 0x2003_0000) || (addr >= 0x1000_0000 && addr < 0x1001_0000)
}

/// The bytes of a stretch of memory.
#[derive(Debug)]
pub struct MemImage {
    pub begin: u64,
    pub data: Vec<u8>,
}

/// A stretch in the model.
pub struct ImageView {
    pub begin: u64,
    pub data: Seq<u8>,
}

impl View for MemImage {
    type V = ImageView;

    open spec fn view(&self) -> ImageView {
        ImageView { begin: self.begin, data: self.data@ }
    }
}

/// A checkpoint.
#[derive(Debug)]
pub struct Snapshot {
    /// The retired count.
    pub retired: u64,
    pub regs: [u32; 23],
    /// The stretches of RAM.
    pub mem: Vec<MemImage>,
}

pub open spec fn image_views(v: Seq<MemImage>) -> Seq<ImageView> {
    Seq::new(v.len(), |i: int| v[i]@)
}

/// Why a checkpoint could not be taken or taken up: there is no memory at the address.
#[derive(Debug, Clone, Copy, PartialEq, Eq, Structural)]
pub struct NoMemory {
    pub addr: u64,
}

/// The stretches of RAM among the first `n` regions, each with its bytes; or the first that is
/// not there.
pub open spec fn images_of(mem: Map<u64, u8>, regions: Seq<(u64, u64)>, n: int) -> Result<
    Seq<ImageView>,
    NoMemory,
>
    decreases n,
{
    if n <= 0 {
        Ok(Seq::empty())
    } else {
        let (begin, size) = regions[n - 1];
        match images_of(mem, regions, n - 1) {
            Err(e) => Err(e),
            Ok(v) => if !in_ram(begin) {
                Ok(v)
            } else if memory::mapped(mem, begin as int, size as int) {
                Ok(
                    v.push(
                        ImageView { begin, data: memory::bytes_of(mem, begin as int, size as int) },
                    ),
                )
            } else {
                Err(NoMemory { addr: begin })
            },
        }
    }
}

/// The memory with the first `n` stretches put back, up to the first for which there is no
/// memory.
pub open spec fn put_back(mem: Map<u64, u8>, images: Seq<ImageView>, n: int) -> (
    Map<u64, u8>,
    Result<(), NoMemory>,
)
    decreases n,
{
    if n <= 0 {
        (mem, Ok(()))
    } else {
        let (m, r) = put_back(mem, images, n - 1);
        let i = images[n - 1];
        if r is Err {
            (m, r)
        } else if memory::mapped(m, i.begin as int, i.data.len() as int) {
            (memory::stored(m, i.begin as int, i.data), Ok(()))
        } else {
            (m, Err(NoMemory { addr: i.begin }))
        }
    }
}

/// The regions stay within the address space, and can be counted.
pub open spec fn regions_fit(regions: Seq<(u64, u64)>) -> bool {
    forall|i: int|
        0 <= i < regions.len() ==> (#[trigger] regions[i]).0 + regions[i].1 <= u64::MAX
            && regions[i].1 <= usize::MAX
}

/// The stretches stay within the address space.
pub open spec fn images_fit(images: Seq<ImageView>) -> bool {
    forall|i: int|
        0 <= i < images.len() ==> (#[trigger] images[i]).begin + images[i].data.len() <= u64::MAX
}

/// Keeps the registers, the RAM among `regions` and the time.
pub fn snapshot<M: GuestMemory>(
    regs: &[u32; 23],
    mem: &M,
    regions: &Vec<(u64, u64)>,
    retired: u64,
) -> (r: Result<Snapshot, NoMemory>)
    requires
        regions_fit(regions@),
    ensures
        match r {
            Ok(s) => {
                &&& s.retired == retired
                &&& s.regs == *regs
                &&& images_of(mem@, regions@, regions@.len() as int) == Ok::<_, NoMemory>(
                    image_views(s.mem@),
                )
                &&& images_fit(image_views(s.mem@))
            },
            Err(e) => images_of(mem@, regions@, regions@.len() as int) == Err::<
                Seq<ImageView>,
                NoMemory,
            >(e),
        },
{
    let n = regions.len();
    let mut out: Vec<MemImage> = Vec::new();
    let mut i: usize = 0;
    assert(image_views(out@) =~= Seq::empty());
    while i < n
        invariant
            i <= n,
            n == regions@.len(),
            regions_fit(regions@),
            images_of(mem@, regions@, i as int) == Ok::<_, NoMemory>(image_views(out@)),
            images_fit(image_views(out@)),
        decreases n - i,
    {
        let (begin, size) = regions[i];
        if is_ram(begin) {
            match mem.mem_read(begin, size as usize) {
                Some(data) => {
                    let ghost before = image_views(out@);
                    out.push(MemImage { begin, data });
                    assert(image_views(out@) =~= before.push(
                        ImageView {
                            begin,
                            data: memory::bytes_of(mem@, begin as int, size as int),
                        },
                    ));
                },
                None => {
                    proof {
                        lemma_images_stop(mem@, regions@, i + 1, n as int);
                    }
                    return Err(NoMemory { addr: begin });
                },
            }
        }
        i = i + 1;
    }
    Ok(Snapshot { retired, regs: *regs, mem: out })
}

/// Puts the registers and the RAM of a checkpoint back. The time is that of the checkpoint.
pub fn restore<M: GuestMemory>(snap: &Snapshot, regs: &mut [u32; 23], mem: &mut M) -> (r: Result<
    u64,
    NoMemory,
>)
    requires
        images_fit(image_views(snap.mem@)),
    ensures
        *final(regs) == snap.regs,
        ({
            let (m, q) = put_back(old(mem)@, image_views(snap.mem@), snap.mem@.len() as int);
            &&& final(mem)@ == m
            &&& r == match q {
                Ok(()) => Ok(snap.retired),
                Err(e) => Err(e),
            }
        }),
{
    *regs = snap.regs;
    let ghost images = image_views(snap.mem@);
    let ghost m0 = mem@;
    let n = snap.mem.len();
    let mut i: usize = 0;
    while i < n
        invariant
            i <= n,
            n == snap.mem@.len(),
            m0 == old(mem)@,
            *regs == snap.regs,
            images == image_views(snap.mem@),
            images_fit(images),
            (mem@, Ok::<(), NoMemory>(())) == put_back(m0, images, i as int),
        decreases n - i,
    {
        assert(images[i as int] == snap.mem@[i as int]@);
        let image = &snap.mem[i];
        if !mem.mem_write(image.begin, &image.data) {
            proof {
                lemma_put_back_stops(m0, images, i + 1, n as int);
            }
            return Err(NoMemory { addr: image.begin });
        }
        i = i + 1;
    }
    Ok(snap.retired)
}

impl Machine {
    /// Takes a checkpoint.
    pub fn snapshot<M: GuestMemory>(
        &self,
        regs: &[u32; 23],
        mem: &M,
        regions: &Vec<(u64, u64)>,
    ) -> (r: Result<Snapshot, NoMemory>)
        requires
            regions_fit(regions@),
        ensures
            match r {
                Ok(s) => {
                    &&& s.retired == self@.retired
                    &&& s.regs == *regs
                    &&& images_of(mem@, regions@, regions@.len() as int) == Ok::<_, NoMemory>(
                        image_views(s.mem@),
                    )
                    &&& images_fit(image_views(s.mem@))
                },
                Err(e) => images_of(mem@, regions@, regions@.len() as int) == Err::<
                    Seq<ImageView>,
                    NoMemory,
                >(e),
            },
    {
        snapshot(regs, mem, regions, self.retired_count())
    }

    /// Goes back to a checkpoint. A halted run may go on.
    pub fn restore<M: GuestMemory>(
        &mut self,
        snap: &Snapshot,
        regs: &mut [u32; 23],
        mem: &mut M,
    ) -> (r: Result<(), NoMemory>)
        requires
            images_fit(image_views(snap.mem@)),
        ensures
            *final(regs) == snap.regs,
            ({
                let (m, q) = put_back(old(mem)@, image_views(snap.mem@), snap.mem@.len() as int);
                &&& final(mem)@ == m
                &&& r == q
                &&& final(self)@ == match q {
                    Ok(()) => MachineView {
                        retired: snap.retired,
                        last_virt_retired: snap.retired,
                        halt_requested: false,
                        ..old(self)@
                    },
                    Err(_) => MachineView { halt_requested: false, ..old(self)@ },
                }
            }),
            old(self)@.wf() ==> final(self)@.wf(),
    {
        self.clear_halt();
        match restore(snap, regs, mem) {
            Ok(retired) => {
                self.rewind(retired);
                Ok(())
            },
            Err(e) => Err(e),
        }
    }
}

proof fn lemma_images_stop(mem: Map<u64, u8>, regions: Seq<(u64, u64)>, i: int, n: int)
    requires
        0 <= i <= n,
        images_of(mem, regions, i) is Err,
    ensures
        images_of(mem, regions, n) == images_of(mem, regions, i),
    decreases n - i,
{
    if i < n {
        lemma_images_stop(mem, regions, i, n - 1);
    }
}

proof fn lemma_put_back_stops(mem: Map<u64, u8>, images: Seq<ImageView>, i: int, n: int)
    requires
        0 <= i <= n,
        put_back(mem, images, i).1 is Err,
    ensures
        put_back(mem, images, n) == put_back(mem, images, i),
    decreases n - i,
{
    if i < n {
        lemma_put_back_stops(mem, images, i, n - 1);
    }
}

/// Is the address in one of the first `n` stretches?
pub open spec fn kept(images: Seq<ImageView>, n: int, a: u64) -> bool {
    exists|i: int|
        0 <= i < n && (#[trigger] images[i]).begin <= a < images[i].begin + images[i].data.len()
}

/// The stretches show the memory that they were taken from.
pub open spec fn images_show(images: Seq<ImageView>, mem: Map<u64, u8>) -> bool {
    forall|i: int|
        0 <= i < images.len() ==> {
            let v = #[trigger] images[i];
            &&& memory::mapped(mem, v.begin as int, v.data.len() as int)
            &&& v.data == memory::bytes_of(mem, v.begin as int, v.data.len() as int)
        }
}

proof fn lemma_images_show(mem: Map<u64, u8>, regions: Seq<(u64, u64)>, n: int)
    requires
        0 <= n <= regions.len(),
        regions_fit(regions),
        images_of(mem, regions, n) is Ok,
    ensures
        images_show(images_of(mem, regions, n)->Ok_0, mem),
        images_fit(images_of(mem, regions, n)->Ok_0),
    decreases n,
{
    if n > 0 {
        lemma_images_show(mem, regions, n - 1);
        assert(regions[n - 1].0 + regions[n - 1].1 <= u64::MAX);
    }
}

proof fn lemma_put_back(mem: Map<u64, u8>, now: Map<u64, u8>, images: Seq<ImageView>, n: int, a: u64)
    requires
        0 <= n <= images.len(),
        images_show(images, mem),
        images_fit(images),
        now.dom() == mem.dom(),
    ensures
        put_back(now, images, n).1 is Ok,
        put_back(now, images, n).0.dom() == mem.dom(),
        put_back(now, images, n).0[a] == if kept(images, n, a) {
            mem[a]
        } else {
            now[a]
        },
    decreases n,
{
    if n > 0 {
        lemma_put_back(mem, now, images, n - 1, a);
        let m = put_back(now, images, n - 1).0;
        let i = images[n - 1];
        assert(memory::mapped(m, i.begin as int, i.data.len() as int)) by {
            assert(memory::mapped(mem, i.begin as int, i.data.len() as int));
        }
        memory::law_store_then_load(m, i.begin as int, i.data, a);
        if kept(images, n, a) {
            let k = choose|k: int|
                0 <= k < n && (#[trigger] images[k]).begin <= a < images[k].begin
                    + images[k].data.len();
            if k < n - 1 {
                assert(kept(images, n - 1, a));
            }
        }
        if i.begin <= a < i.begin + i.data.len() {
            assert(images[n - 1].begin <= a);
            assert(i.data[a - i.begin] == mem[a]);
        }
        if kept(images, n - 1, a) {
            let k = choose|k: int|
                0 <= k < n - 1 && (#[trigger] images[k]).begin <= a < images[k].begin
                    + images[k].data.len();
            assert(images[k].begin <= a);
        }
    }
}

/// Is the address in a RAM region among the first `n`?
pub open spec fn in_ram_region(regions: Seq<(u64, u64)>, n: int, a: u64) -> bool {
    exists|i: int|
        0 <= i < n && in_ram((#[trigger] regions[i]).0) && regions[i].0 <= a < regions[i].0
            + regions[i].1
}

/// The stretches of a checkpoint are the RAM regions.
proof fn lemma_kept_is_ram(mem: Map<u64, u8>, regions: Seq<(u64, u64)>, n: int, a: u64)
    requires
        0 <= n <= regions.len(),
        images_of(mem, regions, n) is Ok,
    ensures
        ({
            let images = images_of(mem, regions, n)->Ok_0;
            kept(images, images.len() as int, a) <==> in_ram_region(regions, n, a)
        }),
    decreases n,
{
    if n > 0 {
        lemma_kept_is_ram(mem, regions, n - 1, a);
        let before = images_of(mem, regions, n - 1)->Ok_0;
        let images = images_of(mem, regions, n)->Ok_0;
        let (begin, size) = regions[n - 1];
        if in_ram(begin) {
            assert(images.last().begin == begin && images.last().data.len() == size);
        }
        if kept(before, before.len() as int, a) {
            let k = choose|k: int|
                0 <= k < before.len() && (#[trigger] before[k]).begin <= a < before[k].begin
                    + before[k].data.len();
            assert(images[k] == before[k]);
        }
        if kept(images, images.len() as int, a) {
            let k = choose|k: int|
                0 <= k < images.len() && (#[trigger] images[k]).begin <= a < images[k].begin
                    + images[k].data.len();
            if k < before.len() {
                assert(images[k] == before[k]);
            } else {
                assert(in_ram(regions[n - 1].0));
            }
        }
        if in_ram_region(regions, n - 1, a) {
            let i = choose|i: int|
                0 <= i < n - 1 && in_ram((#[trigger] regions[i]).0) && regions[i].0 <= a
                    < regions[i].0 + regions[i].1;
            assert(in_ram(regions[i].0));
        }
        if in_ram_region(regions, n, a) {
            let i = choose|i: int|
                0 <= i < n && in_ram((#[trigger] regions[i]).0) && regions[i].0 <= a < regions[i].0
                    + regions[i].1;
            if i < n - 1 {
                assert(in_ram_region(regions, n - 1, a));
            } else {
                assert(images[images.len() - 1].begin <= a);
            }
        }
    }
}

/// Going back to a checkpoint always works while the same memory is there: every byte of the
/// RAM regions is what it was, whatever happened meanwhile, and no other byte changes.
pub proof fn law_restore_undoes_changes(
    mem: Map<u64, u8>,
    now: Map<u64, u8>,
    regions: Seq<(u64, u64)>,
    a: u64,
)
    requires
        regions_fit(regions),
        now.dom() == mem.dom(),
        images_of(mem, regions, regions.len() as int) is Ok,
    ensures
        ({
            let images = images_of(mem, regions, regions.len() as int)->Ok_0;
            let (m, r) = put_back(now, images, images.len() as int);
            &&& r is Ok
            &&& m.dom() == mem.dom()
            &&& m[a] == if in_ram_region(regions, regions.len() as int, a) {
                mem[a]
            } else {
                now[a]
            }
        }),
{
    let images = images_of(mem, regions, regions.len() as int)->Ok_0;
    lemma_images_show(mem, regions, regions.len() as int);
    lemma_put_back(mem, now, images, images.len() as int, a);
    lemma_kept_is_ram(mem, regions, regions.len() as int, a);
}

/// A checkpoint holds RAM only.
pub proof fn law_only_ram_is_kept(mem: Map<u64, u8>, regions: Seq<(u64, u64)>, n: int, i: int)
    requires
        0 <= n <= regions.len(),
        images_of(mem, regions, n) is Ok,
        0 <= i < images_of(mem, regions, n)->Ok_0.len(),
    ensures
        in_ram(images_of(mem, regions, n)->Ok_0[i].begin),
    decreases n,
{
    if n > 0 && i < images_of(mem, regions, n - 1)->Ok_0.len() {
        law_only_ram_is_kept(mem, regions, n - 1, i);
    }
}

/// RAM is the main memory in one piece and the memory that is coupled to the core.
pub proof fn law_ram(a: u64)
    ensures
        in_ram(a) <==> (0x1000_0000 <= a && a <= 0x1000_FFFF) || (0x2000_0000 <= a && a
            <= 0x2002_FFFF),
{
}

} // verus!
