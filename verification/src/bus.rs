//! The memory bus: hands an access to the device whose region holds the address.
use crate::peripheral::{BusError, Peripheral};
use crate::wires::{Wires, WiresView};
use vstd::prelude::*;

verus! {

/// A stretch of addresses that a device answers.
pub struct Region {
    pub base: u32,
    pub size: u32,
    pub name: String,
}

/// What a region is.
pub struct RegionView {
    pub base: int,
    pub size: int,
    pub name: Seq<char>,
}

impl View for Region {
    type V = RegionView;

    open spec fn view(&self) -> RegionView {
        RegionView { base: self.base as int, size: self.size as int, name: self.name@ }
    }
}

impl RegionView {
    pub open spec fn holds(self, addr: int) -> bool {
        self.base <= addr < self.base + self.size
    }

    /// Do two regions have an address in common, or would they if both had one? An empty
    /// region strictly inside another one counts.
    pub open spec fn overlaps(self, base: int, size: int) -> bool {
        base < self.base + self.size && self.base < base + size
    }
}

/// The memory bus. The device of region `i` is device `i`.
pub struct Bus<D> {
    regions: Vec<Region>,
    devices: Vec<D>,
}

/// The state of the bus.
#[verifier::ext_equal]
pub struct BusView<V> {
    pub regions: Seq<RegionView>,
    pub devices: Seq<V>,
}

impl<D: View> View for Bus<D> {
    type V = BusView<D::V>;

    closed spec fn view(&self) -> BusView<D::V> {
        BusView {
            regions: Seq::new(self.regions@.len(), |i: int| self.regions@[i]@),
            devices: Seq::new(self.devices@.len(), |i: int| self.devices@[i]@),
        }
    }
}

impl<V> BusView<V> {
    pub open spec fn empty() -> BusView<V> {
        BusView { regions: Seq::empty(), devices: Seq::empty() }
    }

    /// One device for each region, all regions within the address space, no two overlapping.
    pub open spec fn shaped(self) -> bool {
        &&& self.regions.len() == self.devices.len()
        &&& forall|i: int|
            0 <= i < self.regions.len() ==> {
                let r = #[trigger] self.regions[i];
                0 <= r.base && 0 <= r.size && r.base + r.size <= u32::MAX
            }
        &&& forall|i: int, j: int|
            0 <= i < j < self.regions.len() ==> !(#[trigger] self.regions[i]).overlaps(
                (#[trigger] self.regions[j]).base,
                self.regions[j].size,
            )
    }

    /// Is the stretch free?
    pub open spec fn free(self, base: int, size: int) -> bool {
        forall|i: int|
            0 <= i < self.regions.len() ==> !(#[trigger] self.regions[i]).overlaps(base, size)
    }

    /// The first region from `i` on that holds the address.
    pub open spec fn hit_from(self, i: int, addr: int) -> Option<int>
        decreases self.regions.len() - i,
    {
        if i >= self.regions.len() {
            None
        } else if self.regions[i].holds(addr) {
            Some(i)
        } else {
            self.hit_from(i + 1, addr)
        }
    }

    /// The region that holds the address.
    pub open spec fn hit(self, addr: int) -> Option<int> {
        self.hit_from(0, addr)
    }

    pub open spec fn attached(self, base: int, size: int, name: Seq<char>, device: V) -> BusView<V> {
        BusView {
            regions: self.regions.push(RegionView { base, size, name }),
            devices: self.devices.push(device),
        }
    }

    pub open spec fn with_device(self, i: int, v: V) -> BusView<V> {
        BusView { devices: self.devices.update(i, v), ..self }
    }
}

/// Every device of the bus is in a state that it can reach.
pub open spec fn bus_inv<D: Peripheral>(b: BusView<D::V>) -> bool {
    &&& b.shaped()
    &&& forall|i: int| 0 <= i < b.devices.len() ==> D::inv(#[trigger] b.devices[i])
}

/// Does the device at the address, if there is one, take this read?
pub open spec fn bus_readable<D: Peripheral>(
    b: BusView<D::V>,
    w: WiresView,
    addr: u32,
    size: u32,
) -> bool {
    b.hit(addr as int) matches Some(i) ==> D::readable(
        b.devices[i],
        w,
        (addr - b.regions[i].base) as u32,
        size,
    )
}

/// A read: the device at the address answers, with the offset from its base.
pub open spec fn bus_read<D: Peripheral>(b: BusView<D::V>, w: WiresView, addr: u32, size: u32) -> (
    BusView<D::V>,
    WiresView,
    Result<u32, BusError>,
) {
    match b.hit(addr as int) {
        Some(i) => {
            let (d, w1, r) = D::read_of(
                b.devices[i],
                w,
                (addr - b.regions[i].base) as u32,
                size,
            );
            (b.with_device(i, d), w1, r)
        },
        None => (b, w, Err(BusError::Unmapped(addr))),
    }
}

/// Does the device at the address, if there is one, take this write?
pub open spec fn bus_writable<D: Peripheral>(
    b: BusView<D::V>,
    w: WiresView,
    addr: u32,
    size: u32,
    value: u32,
) -> bool {
    b.hit(addr as int) matches Some(i) ==> D::writable(
        b.devices[i],
        w,
        (addr - b.regions[i].base) as u32,
        size,
        value,
    )
}

/// A write: the device at the address takes it, with the offset from its base.
pub open spec fn bus_write<D: Peripheral>(
    b: BusView<D::V>,
    w: WiresView,
    addr: u32,
    size: u32,
    value: u32,
) -> (BusView<D::V>, WiresView, Result<(), BusError>) {
    match b.hit(addr as int) {
        Some(i) => {
            let (d, w1, r) = D::write_of(
                b.devices[i],
                w,
                (addr - b.regions[i].base) as u32,
                size,
                value,
            );
            (b.with_device(i, d), w1, r)
        },
        None => (b, w, Err(BusError::Unmapped(addr))),
    }
}

/// The first `n` devices are reset, in the order in which they were attached.
pub open spec fn bus_reset<D: Peripheral>(b: BusView<D::V>, w: WiresView, n: int) -> (
    BusView<D::V>,
    WiresView,
)
    decreases n,
{
    if n <= 0 {
        (b, w)
    } else {
        let (b1, w1) = bus_reset::<D>(b, w, n - 1);
        let (d, w2) = D::reset_of(b1.devices[n - 1], w1);
        (b1.with_device(n - 1, d), w2)
    }
}

impl<D: Peripheral> Bus<D> {
    pub fn new() -> (r: Self)
        ensures
            r@ == BusView::<D::V>::empty(),
            bus_inv::<D>(r@),
    {
        let r = Bus { regions: Vec::new(), devices: Vec::new() };
        assert(r@ =~= BusView::<D::V>::empty());
        r
    }

    /// Adds a device. A region that overlaps one that is there is refused.
    pub fn attach(&mut self, base: u32, size: u32, name: String, device: D) -> (r: Result<
        (),
        BusError,
    >)
        requires
            bus_inv::<D>(old(self)@),
            D::inv(device@),
            base + size <= u32::MAX,
        ensures
            bus_inv::<D>(final(self)@),
            r is Ok <==> old(self)@.free(base as int, size as int),
            r is Ok ==> final(self)@ == old(self)@.attached(
                base as int,
                size as int,
                name@,
                device@,
            ),
            r is Err ==> r == Err::<(), BusError>(BusError::Overlap) && final(self)@ == old(self)@,
    {
        let ghost b0 = self@;
        let n = self.regions.len();
        let mut i: usize = 0;
        while i < n
            invariant
                i <= n,
                n == self.regions@.len(),
                self@ == b0,
                bus_inv::<D>(b0),
                base + size <= u32::MAX,
                forall|k: int|
                    0 <= k < i ==> !(#[trigger] b0.regions[k]).overlaps(base as int, size as int),
            decreases n - i,
        {
            assert(b0.regions[i as int] == self.regions@[i as int]@);
            let r = &self.regions[i];
            if base < r.base + r.size && r.base < base + size {
                assert(b0.regions[i as int].overlaps(base as int, size as int));
                return Err(BusError::Overlap);
            }
            i = i + 1;
        }
        let ghost d = device@;
        self.regions.push(Region { base, size, name });
        self.devices.push(device);
        proof {
            let b1 = b0.attached(base as int, size as int, name@, d);
            assert(self@ =~= b1);
            assert forall|i: int, j: int| 0 <= i < j < b1.regions.len() implies !(
            #[trigger] b1.regions[i]).overlaps(
                (#[trigger] b1.regions[j]).base,
                b1.regions[j].size,
            ) by {
                assert(b1.regions[i] == b0.regions[i]);
                if j < b0.regions.len() {
                    assert(b1.regions[j] == b0.regions[j]);
                }
            }
            assert forall|i: int| 0 <= i < b1.regions.len() implies ({
                let r = #[trigger] b1.regions[i];
                0 <= r.base && 0 <= r.size && r.base + r.size <= u32::MAX
            }) by {
                if i < b0.regions.len() {
                    assert(b1.regions[i] == b0.regions[i]);
                }
            }
            assert forall|i: int| 0 <= i < b1.devices.len() implies D::inv(
                #[trigger] b1.devices[i],
            ) by {
                if i < b0.devices.len() {
                    assert(b1.devices[i] == b0.devices[i]);
                }
            }
        }
        Ok(())
    }

    fn lookup(&self, addr: u32) -> (r: Option<usize>)
        requires
            self@.shaped(),
        ensures
            match r {
                Some(i) => self@.hit(addr as int) == Some(i as int) && i < self@.regions.len()
                    && self@.regions[i as int].holds(addr as int),
                None => self@.hit(addr as int) is None,
            },
    {
        let n = self.regions.len();
        let mut i: usize = 0;
        while i < n
            invariant
                i <= n,
                n == self@.regions.len(),
                n == self.regions@.len(),
                self@.shaped(),
                self@.hit(addr as int) == self@.hit_from(i as int, addr as int),
            decreases n - i,
        {
            assert(self@.regions[i as int] == self.regions@[i as int]@);
            let r = &self.regions[i];
            if addr >= r.base && addr < r.base + r.size {
                return Some(i);
            }
            i = i + 1;
        }
        None
    }

    /// The device at the address, and the offset into its region.
    pub fn place_of(&self, addr: u32) -> (r: Option<(usize, u32)>)
        requires
            self@.shaped(),
        ensures
            match r {
                Some((i, offset)) => {
                    &&& self@.hit(addr as int) == Some(i as int)
                    &&& i < self@.devices.len()
                    &&& offset == addr - self@.regions[i as int].base
                },
                None => self@.hit(addr as int) is None,
            },
    {
        match self.lookup(addr) {
            Some(i) => {
                assert(self@.regions[i as int] == self.regions@[i as int]@);
                Some((i, addr - self.regions[i].base))
            },
            None => None,
        }
    }

    /// Reads from the device at the address.
    pub fn read(&mut self, w: &mut Wires, addr: u32, size: u32) -> (r: Result<u32, BusError>)
        requires
            bus_inv::<D>(old(self)@),
            bus_readable::<D>(old(self)@, old(w)@, addr, size),
        ensures
            bus_inv::<D>(final(self)@),
            (final(self)@, final(w)@, r) == bus_read::<D>(old(self)@, old(w)@, addr, size),
    {
        let ghost b0 = self@;
        match self.lookup(addr) {
            None => Err(BusError::Unmapped(addr)),
            Some(i) => {
                assert(b0.regions[i as int] == self.regions@[i as int]@);
                assert(b0.devices[i as int] == self.devices@[i as int]@);
                let offset = addr - self.regions[i].base;
                w.shape();
                let r = self.devices[i].read(w, offset, size);
                proof {
                    lemma_device_replaced::<D>(b0, i as int, self.devices@[i as int]@);
                    assert(self@ =~= b0.with_device(i as int, self.devices@[i as int]@));
                }
                r
            },
        }
    }

    /// Writes to the device at the address.
    pub fn write(&mut self, w: &mut Wires, addr: u32, size: u32, value: u32) -> (r: Result<
        (),
        BusError,
    >)
        requires
            bus_inv::<D>(old(self)@),
            bus_writable::<D>(old(self)@, old(w)@, addr, size, value),
        ensures
            bus_inv::<D>(final(self)@),
            (final(self)@, final(w)@, r) == bus_write::<D>(old(self)@, old(w)@, addr, size, value),
    {
        let ghost b0 = self@;
        match self.lookup(addr) {
            None => Err(BusError::Unmapped(addr)),
            Some(i) => {
                assert(b0.regions[i as int] == self.regions@[i as int]@);
                assert(b0.devices[i as int] == self.devices@[i as int]@);
                let offset = addr - self.regions[i].base;
                w.shape();
                let r = self.devices[i].write(w, offset, size, value);
                proof {
                    lemma_device_replaced::<D>(b0, i as int, self.devices@[i as int]@);
                    assert(self@ =~= b0.with_device(i as int, self.devices@[i as int]@));
                }
                r
            },
        }
    }

    /// Resets every device.
    pub fn reset(&mut self, w: &mut Wires)
        requires
            bus_inv::<D>(old(self)@),
        ensures
            bus_inv::<D>(final(self)@),
            (final(self)@, final(w)@) == bus_reset::<D>(
                old(self)@,
                old(w)@,
                old(self)@.devices.len() as int,
            ),
    {
        let n = self.devices.len();
        let mut i: usize = 0;
        while i < n
            invariant
                i <= n,
                n == self.devices@.len(),
                n == old(self)@.devices.len(),
                bus_inv::<D>(self@),
                (self@, w@) == bus_reset::<D>(old(self)@, old(w)@, i as int),
            decreases n - i,
        {
            let ghost b = self@;
            assert(b.devices[i as int] == self.devices@[i as int]@);
            w.shape();
            self.devices[i].reset(w);
            proof {
                lemma_device_replaced::<D>(b, i as int, self.devices@[i as int]@);
                assert(self@ =~= b.with_device(i as int, self.devices@[i as int]@));
            }
            i = i + 1;
        }
    }

    /// Advances one device by a number of cycles.
    pub fn tick_device(&mut self, w: &mut Wires, i: usize, cycles: u64)
        requires
            bus_inv::<D>(old(self)@),
            i < old(self)@.devices.len(),
            D::tickable(old(self)@.devices[i as int], old(w)@, cycles),
        ensures
            bus_inv::<D>(final(self)@),
            ({
                let (d, w1) = D::tick_of(old(self)@.devices[i as int], old(w)@, cycles);
                final(self)@ == old(self)@.with_device(i as int, d) && final(w)@ == w1
            }),
    {
        let ghost b0 = self@;
        assert(b0.devices[i as int] == self.devices@[i as int]@);
        w.shape();
        self.devices[i].tick(w, cycles);
        proof {
            lemma_device_replaced::<D>(b0, i as int, self.devices@[i as int]@);
            assert(self@ =~= b0.with_device(i as int, self.devices@[i as int]@));
        }
    }

    /// The regions, in the order in which they were attached.
    pub fn regions(&self) -> (r: &Vec<Region>)
        ensures
            r@.len() == self@.regions.len(),
            forall|i: int| 0 <= i < r@.len() ==> #[trigger] r@[i]@ == self@.regions[i],
    {
        &self.regions
    }

    /// The devices, in the order in which they were attached.
    pub fn devices(&self) -> (r: &Vec<D>)
        ensures
            r@.len() == self@.devices.len(),
            forall|i: int| 0 <= i < r@.len() ==> #[trigger] r@[i]@ == self@.devices[i],
    {
        &self.devices
    }

    /// One device.
    pub fn device(&self, i: usize) -> (r: &D)
        requires
            i < self@.devices.len(),
        ensures
            r@ == self@.devices[i as int],
    {
        assert(self@.devices[i as int] == self.devices@[i as int]@);
        &self.devices[i]
    }

    /// One device, for changing it.
    pub fn device_mut(&mut self, i: usize) -> (r: &mut D)
        requires
            i < old(self)@.devices.len(),
        ensures
            r@ == old(self)@.devices[i as int],
            final(self)@ == old(self)@.with_device(i as int, final(r)@),
    {
        assert(self@.devices[i as int] == self.devices@[i as int]@);
        &mut self.devices[i]
    }

    /// The row of devices, for changing them.
    pub fn devices_mut(&mut self) -> (r: &mut Vec<D>)
        ensures
            r@.len() == old(self)@.devices.len(),
            forall|i: int| 0 <= i < r@.len() ==> #[trigger] r@[i]@ == old(self)@.devices[i],
            final(self)@ == (BusView {
                devices: Seq::new(final(r)@.len(), |i: int| final(r)@[i]@),
                ..old(self)@
            }),
    {
        &mut self.devices
    }
}

impl<D: Peripheral> Default for Bus<D> {
    fn default() -> (r: Self)
        ensures
            r@ == BusView::<D::V>::empty(),
    {
        Bus::new()
    }
}

/// Putting a device in a state that it can reach keeps the bus in shape.
pub proof fn lemma_device_replaced<D: Peripheral>(b: BusView<D::V>, i: int, d: D::V)
    requires
        bus_inv::<D>(b),
        0 <= i < b.devices.len(),
        D::inv(d),
    ensures
        bus_inv::<D>(b.with_device(i, d)),
{
    let b1 = b.with_device(i, d);
    assert forall|k: int| 0 <= k < b1.devices.len() implies D::inv(#[trigger] b1.devices[k]) by {
        if k != i {
            assert(b1.devices[k] == b.devices[k]);
        }
    }
}

proof fn lemma_hit_from<V>(b: BusView<V>, i: int, addr: int, k: int)
    requires
        b.shaped(),
        0 <= i <= k < b.regions.len(),
        b.regions[k].holds(addr),
    ensures
        b.hit_from(i, addr) == Some(k),
    decreases k - i,
{
    if i < k {
        assert(!b.regions[i].overlaps(b.regions[k].base, b.regions[k].size));
        lemma_hit_from(b, i + 1, addr, k);
    }
}

proof fn lemma_no_hit_from<V>(b: BusView<V>, i: int, addr: int)
    requires
        0 <= i,
        forall|k: int| i <= k < b.regions.len() ==> !(#[trigger] b.regions[k]).holds(addr),
    ensures
        b.hit_from(i, addr) is None,
    decreases b.regions.len() - i,
{
    if i < b.regions.len() {
        lemma_no_hit_from(b, i + 1, addr);
    }
}

/// An address has at most one region, and the bus finds it wherever it stands; an address
/// outside all regions is unmapped.
pub proof fn law_lookup_is_exact<V>(b: BusView<V>, addr: int, k: int)
    requires
        b.shaped(),
        0 <= k < b.regions.len(),
    ensures
        b.regions[k].holds(addr) <==> b.hit(addr) == Some(k),
        b.hit(addr) is None <==> (forall|i: int|
            0 <= i < b.regions.len() ==> !(#[trigger] b.regions[i]).holds(addr)),
{
    if b.regions[k].holds(addr) {
        lemma_hit_from(b, 0, addr, k);
    }
    lemma_hit_holds(b, 0, addr);
    if forall|i: int| 0 <= i < b.regions.len() ==> !(#[trigger] b.regions[i]).holds(addr) {
        lemma_no_hit_from(b, 0, addr);
    } else {
        let i = choose|i: int| 0 <= i < b.regions.len() && (#[trigger] b.regions[i]).holds(addr);
        lemma_hit_from(b, 0, addr, i);
    }
}

proof fn lemma_hit_holds<V>(b: BusView<V>, i: int, addr: int)
    requires
        0 <= i,
    ensures
        b.hit_from(i, addr) matches Some(k) ==> i <= k < b.regions.len() && b.regions[k].holds(addr),
    decreases b.regions.len() - i,
{
    if i < b.regions.len() && !b.regions[i].holds(addr) {
        lemma_hit_holds(b, i + 1, addr);
    }
}

/// The region that is found is one of the bus, and holds the address.
pub proof fn lemma_hit_in_range<V>(b: BusView<V>, addr: int)
    ensures
        b.hit(addr) matches Some(k) ==> 0 <= k < b.regions.len() && b.regions[k].holds(addr),
{
    lemma_hit_holds(b, 0, addr);
}

/// An access reaches the device whose region holds the address, and no other device.
pub proof fn law_access_reaches_one_device<D: Peripheral>(
    b: BusView<D::V>,
    w: WiresView,
    addr: u32,
    size: u32,
    value: u32,
    i: int,
)
    requires
        b.shaped(),
        0 <= i < b.devices.len(),
        !b.regions[i].holds(addr as int),
    ensures
        bus_read::<D>(b, w, addr, size).0.devices[i] == b.devices[i],
        bus_write::<D>(b, w, addr, size, value).0.devices[i] == b.devices[i],
        bus_read::<D>(b, w, addr, size).0.regions == b.regions,
        bus_write::<D>(b, w, addr, size, value).0.regions == b.regions,
{
    law_lookup_is_exact(b, addr as int, i);
    lemma_hit_holds(b, 0, addr as int);
}

/// Two regions that are not empty overlap just if there is an address in both; a region holds the
/// addresses from its base on, as many as it is long.
pub proof fn law_overlap_is_a_shared_address(a: RegionView, b: RegionView)
    requires
        a.size > 0,
        b.size > 0,
    ensures
        a.overlaps(b.base, b.size) <==> (exists|x: int| #[trigger] a.holds(x) && b.holds(x)),
        a.overlaps(b.base, b.size) == b.overlaps(a.base, a.size),
        a.holds(a.base) && a.holds(a.base + a.size - 1),
        !a.holds(a.base - 1) && !a.holds(a.base + a.size),
{
    if a.overlaps(b.base, b.size) {
        let x = if a.base < b.base {
            b.base
        } else {
            a.base
        };
        assert(a.holds(x) && b.holds(x));
    }
}

/// A device that is attached stands behind those that are there, with its region and its name.
pub proof fn law_attached<V>(b: BusView<V>, base: int, size: int, name: Seq<char>, device: V, i: int)
    requires
        b.shaped(),
        0 <= i < b.devices.len(),
    ensures
        ({
            let t = b.attached(base, size, name, device);
            let n = b.devices.len() as int;
            &&& t.devices.len() == n + 1 && t.regions.len() == n + 1
            &&& t.devices[i] == b.devices[i] && t.regions[i] == b.regions[i]
            &&& t.devices[n] == device
            &&& t.regions[n].base == base && t.regions[n].size == size && t.regions[n].name == name
        }),
{
}

} // verus!
