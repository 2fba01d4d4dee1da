//! The memory that the processor and the DMA controllers work on.
use vstd::prelude::*;

verus! {

/// Is every byte of the range there?
pub open spec fn mapped(m: Map<u64, u8>, addr: int, len: int) -> bool {
    forall|i: int|
        addr <= i < addr + len ==> 0 <= i <= u64::MAX && #[trigger] m.dom().contains(i as u64)
}

/// The bytes of a range.
pub open spec fn bytes_of(m: Map<u64, u8>, addr: int, len: int) -> Seq<u8> {
    Seq::new(len as nat, |i: int| m[(addr + i) as u64])
}

/// The memory with the bytes from `addr` on replaced.
pub open spec fn stored(m: Map<u64, u8>, addr: int, data: Seq<u8>) -> Map<u64, u8>
    decreases data.len(),
{
    if data.len() == 0 {
        m
    } else {
        stored(m, addr, data.drop_last()).insert((addr + data.len() - 1) as u64, data.last())
    }
}

/// The memory after an attempt to store: nothing happens unless the whole range is there.
pub open spec fn stored_if_mapped(m: Map<u64, u8>, addr: int, data: Seq<u8>) -> Map<u64, u8> {
    if mapped(m, addr, data.len() as int) {
        stored(m, addr, data)
    } else {
        m
    }
}

/// A store keeps what is mapped, puts the bytes in place, and leaves the others alone.
pub proof fn law_store_then_load(m: Map<u64, u8>, addr: int, data: Seq<u8>, a: u64)
    requires
        0 <= addr,
        addr + data.len() <= u64::MAX,
        mapped(m, addr, data.len() as int),
    ensures
        stored(m, addr, data).dom() == m.dom(),
        stored(m, addr, data)[a] == (if addr <= a < addr + data.len() {
            data[a - addr]
        } else {
            m[a]
        }),
    decreases data.len(),
{
    if data.len() > 0 {
        let front = data.drop_last();
        assert(mapped(m, addr, front.len() as int));
        law_store_then_load(m, addr, front, a);
        let last = (addr + data.len() - 1) as u64;
        assert(m.dom().contains(last)) by {
            assert(m.dom().contains((addr + data.len() - 1) as u64));
        }
        assert(stored(m, addr, data).dom() =~= m.dom());
    }
}

/// A part of a range that is there is there.
pub proof fn lemma_part_is_mapped(m: Map<u64, u8>, addr: int, len: int, a: int, n: int)
    requires
        mapped(m, addr, len),
        0 <= addr <= a,
        a + n <= addr + len <= u64::MAX,
    ensures
        mapped(m, a, n),
{
}

/// What is there does not depend on the bytes.
pub proof fn lemma_same_mapping(m: Map<u64, u8>, m1: Map<u64, u8>, a: int, n: int)
    requires
        m1.dom() == m.dom(),
        mapped(m, a, n),
        0 <= a,
        a + n <= u64::MAX,
    ensures
        mapped(m1, a, n),
{
}

/// What was stored is what is loaded.
pub proof fn law_load_what_was_stored(m: Map<u64, u8>, addr: int, data: Seq<u8>)
    requires
        0 <= addr,
        addr + data.len() <= u64::MAX,
        mapped(m, addr, data.len() as int),
    ensures
        bytes_of(stored(m, addr, data), addr, data.len() as int) == data,
{
    assert forall|i: int| 0 <= i < data.len() implies #[trigger] bytes_of(
        stored(m, addr, data),
        addr,
        data.len() as int,
    )[i] == data[i] by {
        law_store_then_load(m, addr, data, (addr + i) as u64);
    }
    assert(bytes_of(stored(m, addr, data), addr, data.len() as int) =~= data);
}

/// Memory as the library sees it: a map from addresses to bytes.
pub trait GuestMemory: View<V = Map<u64, u8>> + Sized {
    /// The bytes of a range, if all of them are there.
    fn mem_read(&self, addr: u64, len: usize) -> (r: Option<Vec<u8>>)
        requires
            addr + len <= u64::MAX,
        ensures
            r is Some <==> mapped(self@, addr as int, len as int),
            r matches Some(b) ==> b@ == bytes_of(self@, addr as int, len as int),
    ;

    /// Replaces the bytes of a range, if all of them are there; says whether it did.
    fn mem_write(&mut self, addr: u64, data: &Vec<u8>) -> (r: bool)
        requires
            addr + data@.len() <= u64::MAX,
        ensures
            r == mapped(old(self)@, addr as int, data@.len() as int),
            final(self)@ == stored_if_mapped(old(self)@, addr as int, data@),
    ;
}

/// A stretch of memory.
pub struct MemRegion {
    pub base: u64,
    pub data: Vec<u8>,
}

/// Memory made of stretches; where two overlap, the earlier one answers.
pub struct Ram {
    pub regions: Vec<MemRegion>,
}

/// Does a stretch hold the address?
pub open spec fn covers(r: MemRegion, a: int) -> bool {
    r.base <= a < r.base + r.data@.len()
}

/// The first stretch from `i` on that holds the address.
pub open spec fn first_from(regions: Seq<MemRegion>, i: int, a: int) -> Option<int>
    decreases regions.len() - i,
{
    if i >= regions.len() {
        None
    } else if covers(regions[i], a) {
        Some(i)
    } else {
        first_from(regions, i + 1, a)
    }
}

/// The byte at an address.
pub open spec fn ram_byte(regions: Seq<MemRegion>, a: int) -> u8 {
    let r = regions[first_from(regions, 0, a)->0];
    r.data@[a - r.base]
}

impl View for Ram {
    type V = Map<u64, u8>;

    open spec fn view(&self) -> Map<u64, u8> {
        Map::new(
            |a: u64| first_from(self.regions@, 0, a as int) is Some,
            |a: u64| ram_byte(self.regions@, a as int),
        )
    }
}

proof fn lemma_first_from(regions: Seq<MemRegion>, i: int, a: int)
    requires
        0 <= i,
    ensures
        first_from(regions, i, a) matches Some(k) ==> i <= k < regions.len() && covers(
            regions[k],
            a,
        ),
    decreases regions.len() - i,
{
    if i < regions.len() && !covers(regions[i], a) {
        lemma_first_from(regions, i + 1, a);
    }
}

/// Changing bytes of a stretch does not change which stretch answers.
proof fn lemma_same_shape(r1: Seq<MemRegion>, r2: Seq<MemRegion>, i: int, a: int)
    requires
        r1.len() == r2.len(),
        0 <= i,
        forall|k: int|
            #![trigger r1[k]]
            #![trigger r2[k]]
            0 <= k < r1.len() ==> r1[k].base == r2[k].base && r1[k].data@.len()
                == r2[k].data@.len(),
    ensures
        first_from(r1, i, a) == first_from(r2, i, a),
    decreases r1.len() - i,
{
    if i < r1.len() {
        assert(r1[i].base == r2[i].base);
        lemma_same_shape(r1, r2, i + 1, a);
    }
}

/// Adding a stretch at the end.
proof fn lemma_first_from_push(regions: Seq<MemRegion>, r: MemRegion, i: int, a: int)
    requires
        0 <= i <= regions.len(),
    ensures
        first_from(regions.push(r), i, a) == (match first_from(regions, i, a) {
            Some(k) => Some(k),
            None => if covers(r, a) {
                Some(regions.len() as int)
            } else {
                None
            },
        }),
    decreases regions.len() - i,
{
    let all = regions.push(r);
    if i < regions.len() {
        assert(all[i] == regions[i]);
        if !covers(regions[i], a) {
            lemma_first_from_push(regions, r, i + 1, a);
        }
    } else {
        assert(all[i] == r);
        assert(first_from(all, i + 1, a) is None);
    }
}

impl Ram {
    pub fn new() -> (r: Ram)
        ensures
            r@ == Map::<u64, u8>::empty(),
    {
        let r = Ram { regions: Vec::new() };
        assert(r@ =~= Map::<u64, u8>::empty());
        r
    }

    /// Adds a stretch of zeros. Addresses that were there before keep their bytes.
    pub fn mem_map(&mut self, base: u64, size: usize)
        requires
            base + size <= u64::MAX,
        ensures
            forall|a: u64| #[trigger]
                final(self)@.dom().contains(a) <==> old(self)@.dom().contains(a) || base <= a < base
                    + size,
            forall|a: u64| #[trigger]
                final(self)@.dom().contains(a) ==> final(self)@[a] == (if old(
                    self,
                )@.dom().contains(a) {
                    old(self)@[a]
                } else {
                    0
                }),
    {
        let data: Vec<u8> = vec![0u8; size];
        let ghost r = MemRegion { base, data };
        self.regions.push(MemRegion { base, data });
        proof {
            assert forall|a: u64| #[trigger]
                self@.dom().contains(a) <==> old(self)@.dom().contains(a) || base <= a < base
                    + size by {
                lemma_first_from_push(old(self).regions@, r, 0, a as int);
            }
            assert forall|a: u64| #[trigger] self@.dom().contains(a) implies self@[a] == (if old(
                self,
            )@.dom().contains(a) {
                old(self)@[a]
            } else {
                0
            }) by {
                lemma_first_from_push(old(self).regions@, r, 0, a as int);
                lemma_first_from(old(self).regions@, 0, a as int);
            }
        }
    }

    /// The stretch that holds an address, and the place in it.
    fn locate(&self, a: u64) -> (r: Option<(usize, usize)>)
        ensures
            match r {
                None => first_from(self.regions@, 0, a as int) is None,
                Some((k, off)) => {
                    &&& first_from(self.regions@, 0, a as int) == Some(k as int)
                    &&& k < self.regions@.len()
                    &&& off < self.regions@[k as int].data@.len()
                    &&& a == self.regions@[k as int].base + off
                },
            },
    {
        let mut i: usize = 0;
        while i < self.regions.len()
            invariant
                i <= self.regions@.len(),
                first_from(self.regions@, 0, a as int) == first_from(
                    self.regions@,
                    i as int,
                    a as int,
                ),
            decreases self.regions@.len() - i,
        {
            let r = &self.regions[i];
            if a >= r.base && a - r.base < r.data.len() as u64 {
                return Some((i, (a - r.base) as usize));
            }
            i = i + 1;
        }
        None
    }

    fn has_range(&self, addr: u64, len: usize) -> (r: bool)
        requires
            addr + len <= u64::MAX,
        ensures
            r == mapped(self@, addr as int, len as int),
    {
        let mut i: usize = 0;
        while i < len
            invariant
                i <= len,
                addr + len <= u64::MAX,
                mapped(self@, addr as int, i as int),
            decreases len - i,
        {
            if self.locate(addr + i as u64).is_none() {
                assert(!self@.dom().contains((addr + i) as u64));
                return false;
            }
            assert(self@.dom().contains((addr + i) as u64));
            i = i + 1;
        }
        true
    }

    fn put(&mut self, a: u64, b: u8)
        requires
            old(self)@.dom().contains(a),
        ensures
            final(self)@ == old(self)@.insert(a, b),
    {
        let ghost before = self.regions@;
        if let Some((k, off)) = self.locate(a) {
            self.regions[k].data[off] = b;
            proof {
                let after = self.regions@;
                assert forall|c: u64| first_from(after, 0, c as int) == first_from(
                    before,
                    0,
                    c as int,
                ) by {
                    lemma_same_shape(after, before, 0, c as int);
                }
                assert forall|c: u64|
                    first_from(before, 0, c as int) is Some implies ram_byte(after, c as int) == (
                if c == a {
                    b
                } else {
                    ram_byte(before, c as int)
                }) by {
                    lemma_first_from(before, 0, c as int);
                    let j = first_from(before, 0, c as int)->0;
                    if j != k {
                        assert(after[j] == before[j]);
                    }
                }
                assert(self@ =~= old(self)@.insert(a, b));
            }
        }
    }
}

impl GuestMemory for Ram {
    fn mem_read(&self, addr: u64, len: usize) -> Option<Vec<u8>> {
        if !self.has_range(addr, len) {
            return None;
        }
        let mut out: Vec<u8> = Vec::new();
        let mut i: usize = 0;
        while i < len
            invariant
                i <= len,
                addr + len <= u64::MAX,
                mapped(self@, addr as int, len as int),
                out@ == bytes_of(self@, addr as int, i as int),
            decreases len - i,
        {
            assert(self@.dom().contains((addr + i) as u64));
            if let Some((k, off)) = self.locate(addr + i as u64) {
                let b: u8 = self.regions[k].data[off];
                out.push(b);
                assert(out@ =~= bytes_of(self@, addr as int, i + 1));
            }
            i = i + 1;
        }
        Some(out)
    }

    fn mem_write(&mut self, addr: u64, data: &Vec<u8>) -> bool {
        if !self.has_range(addr, data.len()) {
            return false;
        }
        let ghost m = self@;
        let mut i: usize = 0;
        assert(data@.take(0) =~= Seq::<u8>::empty());
        while i < data.len()
            invariant
                i <= data@.len(),
                addr + data@.len() <= u64::MAX,
                mapped(m, addr as int, data@.len() as int),
                self@ == stored(m, addr as int, data@.take(i as int)),
            decreases data@.len() - i,
        {
            proof {
                let front = data@.take(i as int);
                assert(mapped(m, addr as int, front.len() as int));
                law_store_then_load(m, addr as int, front, (addr + i) as u64);
                assert(m.dom().contains((addr + i) as u64));
                let next = data@.take(i + 1);
                assert(next.drop_last() =~= front);
                assert(next.last() == data@[i as int]);
            }
            self.put(addr + i as u64, data[i]);
            i = i + 1;
        }
        assert(data@.take(data@.len() as int) =~= data@);
        true
    }
}

} // verus!
