//! Segmented guest memory with dirty-block tracking and O(dirty) restore.
//!
//! Memory is an ordered set of non-overlapping regions, each a run of
//! bytes at a guest virtual address together with a dirty bitmap, one
//! bit per `BITMAP_SIZE`-byte block.  `save_state` clones every region's
//! bytes into a shadow and clears the bitmaps; from then on every store
//! marks the blocks it touches, and `reset_to_saved_state` copies back
//! only the dirty blocks — O(dirty), which is the point of the design.

use vstd::prelude::*;
use vstd::pervasive::VecAdditionalExecFns;
use vstd::slice::slice_to_vec;

use crate::error::EmuError;

verus! {

/// Boot value of the guest stack pointer; also the size of the region
/// mapped at address zero when the memory is created.
pub const STACK_SIZE: usize = 0x1000;

/// Size in bytes of one dirty-tracking block.
pub const BITMAP_SIZE: u64 = 0x10;

/// Mathematical model of one region.
#[verifier::ext_equal]
pub struct RegionV {
    pub virt_addr: u64,
    pub data: Seq<u8>,
    pub dirty: Seq<bool>,
}

/// Mathematical model of the whole address space: the live regions and,
/// once `save_state` has run, one pristine byte sequence per region.
#[verifier::ext_equal]
pub struct MemV {
    pub regions: Seq<RegionV>,
    pub saved: Option<Seq<Seq<u8>>>,
}

/// How many dirty-tracking blocks a region of `len` bytes needs.
pub open spec fn num_blocks(len: int) -> int {
    len / (BITMAP_SIZE as int) + if len % (BITMAP_SIZE as int) != 0 {
        1int
    } else {
        0int
    }
}

/// The dirty-bitmap index of byte offset `k`.
pub open spec fn block_of(k: int) -> int {
    k / (BITMAP_SIZE as int)
}

/// A byte offset lies under a block index inside the bitmap.
proof fn lemma_block_of_in_range(k: int, len: int)
    by (nonlinear_arith)
    requires
        0 <= k < len,
    ensures
        0 <= block_of(k) < num_blocks(len),
{
}

/// Block indices grow with byte offsets.
proof fn lemma_block_of_ordered(a: int, b: int)
    requires
        0 <= a <= b,
    ensures
        block_of(a) <= block_of(b),
{
    vstd::arithmetic::div_mod::lemma_div_is_ordered(a, b, BITMAP_SIZE as int);
}

/// The bitmap's blocks cover the whole region.
proof fn lemma_num_blocks_covers(len: int)
    by (nonlinear_arith)
    requires
        0 <= len,
    ensures
        len <= num_blocks(len) * (BITMAP_SIZE as int),
{
}

/// A byte offset lies under block `j` exactly when it lies in the
/// block's byte range.
proof fn lemma_block_split(t: int, j: int)
    by (nonlinear_arith)
    requires
        0 <= t,
        0 <= j,
    ensures
        block_of(t) == j <==> j * (BITMAP_SIZE as int) <= t < (j + 1) * (BITMAP_SIZE as int),
{
}

/// Every block of the bitmap starts inside the region.
proof fn lemma_block_start(j: int, len: int)
    by (nonlinear_arith)
    requires
        0 <= j < num_blocks(len),
    ensures
        j * (BITMAP_SIZE as int) < len,
{
}

pub open spec fn region_wf(r: RegionV) -> bool {
    &&& r.dirty.len() == num_blocks(r.data.len() as int)
    &&& r.virt_addr + r.data.len() <= u64::MAX
    &&& r.data.len() <= usize::MAX
}

/// Two region index ranges never overlap, so any guest address lies in
/// at most one region.
pub open spec fn regions_disjoint(rs: Seq<RegionV>) -> bool {
    forall|i: int, j: int|
        0 <= i < rs.len() && 0 <= j < rs.len() && i != j ==> rs[i].virt_addr + rs[i].data.len()
            <= rs[j].virt_addr || rs[j].virt_addr + rs[j].data.len() <= rs[i].virt_addr
}

/// Every byte in a clean block still equals its shadow copy.
pub open spec fn clean_blocks_agree(r: RegionV, shadow: Seq<u8>) -> bool {
    forall|k: int|
        0 <= k < r.data.len() && !r.dirty[block_of(k)] ==> #[trigger] r.data[k] == shadow[k]
}

pub open spec fn shadow_wf(m: MemV) -> bool {
    match m.saved {
        Option::None => true,
        Option::Some(sh) => {
            &&& sh.len() == m.regions.len()
            &&& forall|i: int|
                0 <= i < m.regions.len() ==> (#[trigger] sh[i]).len() == m.regions[i].data.len()
            &&& forall|i: int|
                0 <= i < m.regions.len() ==> clean_blocks_agree(#[trigger] m.regions[i], sh[i])
        },
    }
}

pub open spec fn mem_wf(m: MemV) -> bool {
    &&& forall|i: int| 0 <= i < m.regions.len() ==> region_wf(#[trigger] m.regions[i])
    &&& regions_disjoint(m.regions)
    &&& shadow_wf(m)
}

/// The range `[at, at + len)` lies entirely inside the region.
pub open spec fn region_contains(r: RegionV, at: u64, len: nat) -> bool {
    r.virt_addr <= at && at + len <= r.virt_addr + r.data.len()
}

pub open spec fn some_region_contains(rs: Seq<RegionV>, at: u64, len: nat) -> bool {
    exists|i: int| 0 <= i < rs.len() && region_contains(#[trigger] rs[i], at, len)
}

/// The range `[at, at + size)` stays clear of every existing region.
pub open spec fn range_free(rs: Seq<RegionV>, at: u64, size: u64) -> bool {
    forall|i: int|
        0 <= i < rs.len() ==> (#[trigger] rs[i]).virt_addr + rs[i].data.len() <= at || at + size
            <= rs[i].virt_addr
}

/// What `read` returns: the bytes of the unique region containing the
/// range, or nothing when the range is not mapped.
pub open spec fn read_spec(rs: Seq<RegionV>, at: u64, len: nat) -> Option<Seq<u8>> {
    if some_region_contains(rs, at, len) {
        if len == 0 {
            Option::Some(Seq::empty())
        } else {
            let i = choose|i: int|
                0 <= i < rs.len() && region_contains(#[trigger] rs[i], at, len);
            let off = at - rs[i].virt_addr;
            Option::Some(rs[i].data.subrange(off, off + len))
        }
    } else {
        Option::None
    }
}

/// The dirty bitmap after a store of `len` bytes at offset `off`.
pub open spec fn mark_dirty(dirty: Seq<bool>, off: int, len: int) -> Seq<bool> {
    Seq::new(
        dirty.len(),
        |j: int| dirty[j] || (len > 0 && block_of(off) <= j <= block_of(off + len - 1)),
    )
}

/// One region after a store of `buf` at offset `off`.
pub open spec fn write_region(r: RegionV, off: int, buf: Seq<u8>) -> RegionV {
    RegionV {
        virt_addr: r.virt_addr,
        data: Seq::new(
            r.data.len(),
            |k: int|
                if off <= k < off + buf.len() {
                    buf[k - off]
                } else {
                    r.data[k]
                },
        ),
        dirty: mark_dirty(r.dirty, off, buf.len() as int),
    }
}

/// What `write` does: update the unique region containing the range and
/// mark every block the store touches; fail when the range is unmapped.
/// The shadow is untouched by stores.
pub open spec fn write_spec(rs: Seq<RegionV>, at: u64, buf: Seq<u8>) -> Option<Seq<RegionV>> {
    if some_region_contains(rs, at, buf.len()) {
        if buf.len() == 0 {
            Option::Some(rs)
        } else {
            let i = choose|i: int|
                0 <= i < rs.len() && region_contains(#[trigger] rs[i], at, buf.len());
            let off = at - rs[i].virt_addr;
            Option::Some(rs.update(i, write_region(rs[i], off, buf)))
        }
    } else {
        Option::None
    }
}

/// A store keeps the memory well-formed: sizes and addresses are
/// unchanged, and every byte it changes lies in a block it marks dirty.
proof fn lemma_write_preserves_wf(m: MemV, i: int, at: u64, buf: Seq<u8>)
    requires
        mem_wf(m),
        0 <= i < m.regions.len(),
        region_contains(m.regions[i], at, buf.len()),
        buf.len() > 0,
    ensures
        mem_wf(
            MemV {
                regions: m.regions.update(
                    i,
                    write_region(m.regions[i], at - m.regions[i].virt_addr, buf),
                ),
                saved: m.saved,
            },
        ),
{
    let off = at - m.regions[i].virt_addr;
    let r2 = write_region(m.regions[i], off, buf);
    let m2 = MemV { regions: m.regions.update(i, r2), saved: m.saved };
    assert(forall|j: int| 0 <= j < m2.regions.len() ==> region_wf(#[trigger] m2.regions[j]));
    assert(regions_disjoint(m2.regions));
    match m.saved {
        Option::None => {},
        Option::Some(sh) => {
            assert forall|j: int| 0 <= j < m2.regions.len() implies clean_blocks_agree(
                #[trigger] m2.regions[j],
                sh[j],
            ) by {
                if j == i {
                    assert forall|k: int|
                        0 <= k < r2.data.len() && !r2.dirty[block_of(k)] implies #[trigger] r2.data[k]
                        == sh[j][k] by {
                        lemma_block_of_in_range(k, m.regions[i].data.len() as int);
                        if off <= k < off + buf.len() {
                            lemma_block_of_ordered(off as int, k);
                            lemma_block_of_ordered(k, off + buf.len() - 1);
                            assert(r2.dirty[block_of(k)]);
                        } else {
                            assert(!m.regions[i].dirty[block_of(k)]);
                            assert(m.regions[i].data[k] == sh[j][k]);
                        }
                    }
                } else {
                    assert(m2.regions[j] == m.regions[j]);
                    assert(clean_blocks_agree(m.regions[j], sh[j]));
                }
            }
        },
    }
}

/// A region's initial bytes, padded with zeros up to its size.
pub open spec fn pad_zeros(data: Seq<u8>, size: nat) -> Seq<u8> {
    data + Seq::new((size - data.len()) as nat, |k: int| 0u8)
}

/// What `allocate` does: push a fresh, fully clean region; a shadow that
/// already exists gains the same pristine bytes.
pub open spec fn allocate_spec(m: MemV, at: u64, size: u64, data: Seq<u8>) -> MemV {
    let padded = pad_zeros(data, size as nat);
    let fresh = RegionV {
        virt_addr: at,
        data: padded,
        dirty: Seq::new(num_blocks(size as int) as nat, |j: int| false),
    };
    MemV {
        regions: m.regions.push(fresh),
        saved: match m.saved {
            Option::None => Option::None,
            Option::Some(sh) => Option::Some(sh.push(padded)),
        },
    }
}

/// What `save_state` does: shadow := live bytes, every bitmap cleared.
pub open spec fn save_spec(m: MemV) -> MemV {
    MemV {
        regions: Seq::new(
            m.regions.len(),
            |i: int|
                RegionV {
                    virt_addr: m.regions[i].virt_addr,
                    data: m.regions[i].data,
                    dirty: Seq::new(m.regions[i].dirty.len(), |j: int| false),
                },
        ),
        saved: Option::Some(Seq::new(m.regions.len(), |i: int| m.regions[i].data)),
    }
}

/// What `reset_to_saved_state` achieves: live bytes := shadow bytes,
/// every bitmap cleared, the shadow kept for the next iteration.
pub open spec fn reset_spec(m: MemV) -> MemV
    recommends
        m.saved is Some,
{
    MemV {
        regions: Seq::new(
            m.regions.len(),
            |i: int|
                RegionV {
                    virt_addr: m.regions[i].virt_addr,
                    data: m.saved->0[i],
                    dirty: Seq::new(m.regions[i].dirty.len(), |j: int| false),
                },
        ),
        saved: m.saved,
    }
}

/// One allocated region: a run of guest bytes plus its dirty bitmap.
#[derive(Debug)]
pub struct MemoryRegion {
    pub virt_addr: u64,
    pub size: u64,
    pub data: Vec<u8>,
    pub dirty: Vec<bool>,
}

impl View for MemoryRegion {
    type V = RegionV;

    open spec fn view(&self) -> RegionV {
        RegionV { virt_addr: self.virt_addr, data: self.data@, dirty: self.dirty@ }
    }
}

/// The guest address space.
#[derive(Debug)]
pub struct Memory {
    allocated: Vec<MemoryRegion>,
    saved_state: Option<Vec<Vec<u8>>>,
}

impl View for Memory {
    type V = MemV;

    closed spec fn view(&self) -> MemV {
        MemV {
            regions: self.allocated@.map_values(|r: MemoryRegion| r@),
            saved: match self.saved_state {
                Option::None => Option::None,
                Option::Some(ref v) => Option::Some(v@.map_values(|d: Vec<u8>| d@)),
            },
        }
    }
}

/// A vector of `n` zero bytes.
fn zero_bytes(n: usize) -> (v: Vec<u8>)
    ensures
        v@ == Seq::new(n as nat, |k: int| 0u8),
{
    let mut v: Vec<u8> = Vec::new();
    let mut k: usize = 0;
    while k < n
        invariant
            k <= n,
            v@.len() == k,
            forall|t: int| 0 <= t < k ==> v@[t] == 0u8,
        decreases n - k,
    {
        v.push(0u8);
        k += 1;
    }
    proof {
        assert(v@ =~= Seq::new(n as nat, |k: int| 0u8));
    }
    v
}

/// A fully clean dirty bitmap of `n` blocks.
fn clean_bitmap(n: usize) -> (v: Vec<bool>)
    ensures
        v@ == Seq::new(n as nat, |j: int| false),
{
    let mut v: Vec<bool> = Vec::new();
    let mut k: usize = 0;
    while k < n
        invariant
            k <= n,
            v@.len() == k,
            forall|t: int| 0 <= t < k ==> v@[t] == false,
        decreases n - k,
    {
        v.push(false);
        k += 1;
    }
    proof {
        assert(v@ =~= Seq::new(n as nat, |j: int| false));
    }
    v
}

impl Memory {
    /// Everything the other operations rely on: region sizes match their
    /// bitmaps, regions do not overlap, and clean blocks agree with the
    /// shadow whenever one exists.
    /// The recorded size of every region matches its byte vector.
    pub closed spec fn sizes_ok(&self) -> bool {
        forall|i: int|
            0 <= i < self.allocated@.len() ==> (#[trigger] self.allocated@[i]).size
                == self.allocated@[i].data@.len()
    }

    pub open spec fn inv(&self) -> bool {
        &&& mem_wf(self@)
        &&& self.sizes_ok()
    }

    /// A fresh memory holding one zeroed region of `STACK_SIZE` bytes at
    /// address zero, where the guest stack lives.
    pub fn new() -> (m: Memory)
        ensures
            m.inv(),
            m@.saved is None,
            m@.regions.len() == 1,
            m@.regions[0].virt_addr == 0,
            m@.regions[0].data == Seq::new(STACK_SIZE as nat, |k: int| 0u8),
            m@.regions[0].dirty == Seq::new(num_blocks(STACK_SIZE as int) as nat, |j: int| false),
    {
        let data = zero_bytes(STACK_SIZE);
        let dirty = clean_bitmap(STACK_SIZE / (BITMAP_SIZE as usize));
        let region = MemoryRegion { virt_addr: 0, size: STACK_SIZE as u64, data, dirty };
        let mut allocated: Vec<MemoryRegion> = Vec::new();
        allocated.push(region);
        let m = Memory { allocated, saved_state: Option::None };
        proof {
            assert(m@.regions.len() == 1);
            assert(m@.regions[0] == region@);
            assert(num_blocks(STACK_SIZE as int) == (STACK_SIZE as int) / (BITMAP_SIZE as int));
        }
        m
    }

    /// Whether `[at, at + size)` would overlap an already mapped region.
    pub fn overlaps_existing(&self, at: u64, size: u64) -> (b: bool)
        requires
            self.inv(),
            at + size <= u64::MAX,
        ensures
            b == !range_free(self@.regions, at, size),
    {
        let n = self.allocated.len();
        let mut i: usize = 0;
        while i < n
            invariant
                self.inv(),
                at + size <= u64::MAX,
                n == self.allocated.len(),
                i <= n,
                forall|j: int|
                    0 <= j < i ==> (#[trigger] self@.regions[j]).virt_addr
                        + self@.regions[j].data.len() <= at || at + size
                        <= self@.regions[j].virt_addr,
            decreases n - i,
        {
            let r = &self.allocated[i];
            proof {
                assert(self@.regions[i as int] == r@);
            }
            if !(r.virt_addr + r.size <= at || at + size <= r.virt_addr) {
                return true;
            }
            i += 1;
        }
        false
    }

    /// Map a new region at `at` of `size` bytes; `data` may be shorter
    /// than `size` (BSS style) and is padded with zeros.  Refuses a
    /// region overlapping one already mapped.
    pub fn allocate(&mut self, at: u64, size: u64, data: &[u8]) -> (r: Result<(), EmuError>)
        requires
            old(self).inv(),
            data@.len() <= size,
            size <= usize::MAX,
            at + size <= u64::MAX,
        ensures
            final(self).inv(),
            match r {
                Ok(()) => range_free(old(self)@.regions, at, size) && final(self)@
                    == allocate_spec(old(self)@, at, size, data@),
                Err(e) => e == EmuError::RegionOverlap && !range_free(old(self)@.regions, at, size)
                    && final(self)@ == old(self)@,
            },
    {
        if self.overlaps_existing(at, size) {
            return Err(EmuError::RegionOverlap);
        }
        let mut bytes = slice_to_vec(data);
        let mut k: usize = data.len();
        while (k as u64) < size
            invariant
                data@.len() <= k,
                k <= size,
                size <= usize::MAX,
                bytes@.len() == k,
                forall|t: int| 0 <= t < data@.len() ==> bytes@[t] == data@[t],
                forall|t: int| data@.len() <= t < k ==> bytes@[t] == 0u8,
            decreases size - k,
        {
            bytes.push(0u8);
            k += 1;
        }
        proof {
            assert(bytes@ =~= pad_zeros(data@, size as nat));
        }
        proof {
            assert(size / BITMAP_SIZE <= size) by (nonlinear_arith);
        }
        let nblocks: u64 = size / BITMAP_SIZE + if size % BITMAP_SIZE != 0 {
            1
        } else {
            0
        };
        let dirty = clean_bitmap(nblocks as usize);
        match (&mut self.saved_state) {
            Option::None => {},
            Option::Some(sh) => {
                let pristine = slice_to_vec(bytes.as_slice());
                sh.push(pristine);
            },
        }
        let fresh = MemoryRegion { virt_addr: at, size, data: bytes, dirty };
        self.allocated.push(fresh);
        proof {
            assert(self@ =~~= allocate_spec(old(self)@, at, size, data@));
        }
        Ok(())
    }

    /// Copy `len` bytes starting at guest address `at`.  Fails when the
    /// range is not entirely inside one region.
    pub fn read(&self, at: u64, len: usize) -> (r: Result<Vec<u8>, EmuError>)
        requires
            self.inv(),
        ensures
            match r {
                Ok(buf) => read_spec(self@.regions, at, len as nat) == Option::Some(buf@),
                Err(e) => read_spec(self@.regions, at, len as nat) is None && e
                    == EmuError::MemoryUnmapped,
            },
    {
        let n = self.allocated.len();
        let mut i: usize = 0;
        while i < n
            invariant
                self.inv(),
                n == self.allocated.len(),
                i <= n,
                forall|j: int|
                    0 <= j < i ==> !region_contains(#[trigger] self@.regions[j], at, len as nat),
            decreases n - i,
        {
            let reg = &self.allocated[i];
            proof {
                assert(self@.regions[i as int] == reg@);
            }
            if at >= reg.virt_addr && (len as u64) <= reg.size && at - reg.virt_addr <= reg.size
                - (len as u64) {
                let off64 = at - reg.virt_addr;
                let dlen = reg.data.len();
                proof {
                    assert(self.allocated@[i as int].size == self.allocated@[i as int].data@.len());
                    assert(off64 + len <= dlen);
                }
                let off = off64 as usize;
                let mut buf: Vec<u8> = Vec::new();
                let mut k: usize = 0;
                while k < len
                    invariant
                        region_contains(reg@, at, len as nat),
                        reg.size == reg.data@.len(),
                        off == at - reg.virt_addr,
                        off + len <= reg.data@.len(),
                        off + len <= usize::MAX,
                        k <= len,
                        buf@.len() == k,
                        forall|t: int| 0 <= t < k ==> buf@[t] == reg.data@[off + t],
                    decreases len - k,
                {
                    buf.push(reg.data[off + k]);
                    k += 1;
                }
                proof {
                    assert(region_contains(self@.regions[i as int], at, len as nat));
                    assert(some_region_contains(self@.regions, at, len as nat));
                    if len == 0 {
                        assert(buf@ =~= Seq::<u8>::empty());
                    } else {
                        let ci = choose|ci: int|
                            0 <= ci < self@.regions.len() && region_contains(
                                #[trigger] self@.regions[ci],
                                at,
                                len as nat,
                            );
                        assert(ci == i as int);
                        assert(buf@ =~= self@.regions[ci].data.subrange(
                            at - self@.regions[ci].virt_addr,
                            at - self@.regions[ci].virt_addr + len,
                        ));
                    }
                }
                return Ok(buf);
            }
            i += 1;
        }
        Err(EmuError::MemoryUnmapped)
    }

    /// Store `buf` starting at guest address `at`, marking every block
    /// the store touches as dirty.  Fails, leaving memory unchanged,
    /// when the range is not entirely inside one region.
    pub fn write(&mut self, at: u64, buf: &[u8]) -> (res: Result<(), EmuError>)
        requires
            old(self).inv(),
        ensures
            final(self).inv(),
            match res {
                Ok(()) => write_spec(old(self)@.regions, at, buf@) == Option::Some(
                    final(self)@.regions,
                ) && final(self)@.saved == old(self)@.saved,
                Err(e) => write_spec(old(self)@.regions, at, buf@) is None && e
                    == EmuError::MemoryUnmapped && final(self)@ == old(self)@,
            },
    {
        let len = buf.len();
        let n = self.allocated.len();
        let mut i: usize = 0;
        while i < n
            invariant
                self.inv(),
                self@ == old(self)@,
                len == buf@.len(),
                n == self.allocated.len(),
                i <= n,
                forall|j: int|
                    0 <= j < i ==> !region_contains(#[trigger] self@.regions[j], at, len as nat),
            decreases n - i,
        {
            let found = {
                let reg = &self.allocated[i];
                proof {
                    assert(self@.regions[i as int] == reg@);
                }
                at >= reg.virt_addr && (len as u64) <= reg.size && at - reg.virt_addr <= reg.size
                    - (len as u64)
            };
            if found {
                proof {
                    assert(region_contains(self@.regions[i as int], at, len as nat));
                    assert(some_region_contains(self@.regions, at, len as nat));
                }
                if len == 0 {
                    return Ok(());
                }
                let ghost old_mem = self@;
                proof {
                    assert(self.allocated@[i as int].size == self.allocated@[i as int].data@.len());
                    assert(old_mem.regions[i as int] == self.allocated@[i as int]@);
                }
                let mut region = MemoryRegion {
                    virt_addr: 0,
                    size: 0,
                    data: Vec::new(),
                    dirty: Vec::new(),
                };
                self.allocated.set_and_swap(i, &mut region);
                let ghost orig = region@;
                proof {
                    assert(orig == old_mem.regions[i as int]);
                    assert(region_contains(orig, at, len as nat));
                    assert(region.size == orig.data.len());
                }
                let off64 = at - region.virt_addr;
                let dlen = region.data.len();
                proof {
                    assert(off64 + len <= dlen);
                }
                let off = off64 as usize;
                let mut k: usize = 0;
                while k < len
                    invariant
                        k <= len,
                        len == buf@.len(),
                        region.virt_addr == orig.virt_addr,
                        region.size == orig.data.len(),
                        region.dirty@ == orig.dirty,
                        region.data@.len() == orig.data.len(),
                        off + len <= orig.data.len(),
                        off + len <= usize::MAX,
                        off == at - orig.virt_addr,
                        forall|t: int|
                            0 <= t < region.data@.len() ==> #[trigger] region.data@[t] == (if off
                                <= t < off + k {
                                buf@[t - off]
                            } else {
                                orig.data[t]
                            }),
                    decreases len - k,
                {
                    region.data.set(off + k, buf[k]);
                    k += 1;
                }
                let first_block = ((at - region.virt_addr) / BITMAP_SIZE) as usize;
                let last_block = (((at - region.virt_addr) + (len as u64) - 1) / BITMAP_SIZE)
                    as usize;
                proof {
                    lemma_block_of_in_range(off + len - 1, orig.data.len() as int);
                    lemma_block_of_ordered(off as int, off + len - 1);
                    assert(orig.dirty.len() == num_blocks(orig.data.len() as int));
                }
                let mut j: usize = first_block;
                while j <= last_block
                    invariant
                        first_block == block_of(off as int),
                        last_block == block_of(off + len - 1),
                        first_block <= j <= last_block + 1,
                        last_block < region.dirty@.len(),
                        region.virt_addr == orig.virt_addr,
                        region.size == orig.data.len(),
                        region.data@.len() == orig.data.len(),
                        region.dirty@.len() == orig.dirty.len(),
                        forall|t: int|
                            0 <= t < region.dirty@.len() ==> #[trigger] region.dirty@[t] == (
                            orig.dirty[t] || (first_block <= t < j)),
                        forall|t: int|
                            0 <= t < region.data@.len() ==> #[trigger] region.data@[t] == (if off
                                <= t < off + len {
                                buf@[t - off]
                            } else {
                                orig.data[t]
                            }),
                    decreases last_block + 1 - j,
                {
                    region.dirty.set(j, true);
                    j += 1;
                }
                proof {
                    assert(region@ =~~= write_region(orig, off as int, buf@));
                }
                self.allocated.set_and_swap(i, &mut region);
                proof {
                    let nm = self@;
                    assert(nm.regions =~= old_mem.regions.update(
                        i as int,
                        write_region(orig, off as int, buf@),
                    ));
                    let ci = choose|ci: int|
                        0 <= ci < old_mem.regions.len() && region_contains(
                            #[trigger] old_mem.regions[ci],
                            at,
                            len as nat,
                        );
                    assert(ci == i as int);
                    assert(write_spec(old(self)@.regions, at, buf@) == Option::Some(
                        self@.regions,
                    ));
                    lemma_write_preserves_wf(old_mem, i as int, at, buf@);
                    assert(self.inv());
                }
                return Ok(());
            }
            i += 1;
        }
        Err(EmuError::MemoryUnmapped)
    }

    /// Clone every region's bytes into the shadow and clear every dirty
    /// bitmap.  From here on the bitmaps record exactly which blocks may
    /// differ from the shadow.
    pub fn save_state(&mut self)
        requires
            old(self).inv(),
        ensures
            final(self).inv(),
            final(self)@ == save_spec(old(self)@),
    {
        let n = self.allocated.len();
        let mut shadow: Vec<Vec<u8>> = Vec::new();
        let mut i: usize = 0;
        while i < n
            invariant
                self.inv(),
                self == old(self),
                n == self.allocated@.len(),
                i <= n,
                shadow@.len() == i,
                forall|j: int| 0 <= j < i ==> (#[trigger] shadow@[j])@ == self@.regions[j].data,
            decreases n - i,
        {
            proof {
                assert(self@.regions[i as int] == self.allocated@[i as int]@);
            }
            let copy = slice_to_vec(self.allocated[i].data.as_slice());
            shadow.push(copy);
            i += 1;
        }
        let mut i: usize = 0;
        while i < n
            invariant
                n == self.allocated@.len(),
                n == old(self).allocated@.len(),
                i <= n,
                self.saved_state == old(self).saved_state,
                shadow@.len() == n,
                old(self).inv(),
                forall|j: int| 0 <= j < n ==> (#[trigger] shadow@[j])@ == old(self)@.regions[j].data,
                forall|j: int|
                    i <= j < n ==> #[trigger] self.allocated@[j] == old(self).allocated@[j],
                forall|j: int|
                    0 <= j < i ==> #[trigger] self.allocated@[j]@ == (RegionV {
                        virt_addr: old(self)@.regions[j].virt_addr,
                        data: old(self)@.regions[j].data,
                        dirty: Seq::new(old(self)@.regions[j].dirty.len(), |t: int| false),
                    }),
                forall|j: int|
                    0 <= j < i ==> (#[trigger] self.allocated@[j]).size
                        == self.allocated@[j].data@.len(),
            decreases n - i,
        {
            proof {
                assert(self.allocated@[i as int] == old(self).allocated@[i as int]);
                assert(old(self)@.regions[i as int] == old(self).allocated@[i as int]@);
            }
            let nb = self.allocated[i].dirty.len();
            let cleared = clean_bitmap(nb);
            let mut region = MemoryRegion {
                virt_addr: 0,
                size: 0,
                data: Vec::new(),
                dirty: Vec::new(),
            };
            self.allocated.set_and_swap(i, &mut region);
            region.dirty = cleared;
            self.allocated.set_and_swap(i, &mut region);
            i += 1;
        }
        self.saved_state = Option::Some(shadow);
        proof {
            assert(self@ =~~= save_spec(old(self)@));
            let m2 = self@;
            assert forall|j: int| 0 <= j < m2.regions.len() implies region_wf(
                #[trigger] m2.regions[j],
            ) by {
                assert(region_wf(old(self)@.regions[j]));
            }
            assert(regions_disjoint(m2.regions)) by {
                assert(forall|a: int|
                    0 <= a < m2.regions.len() ==> (#[trigger] m2.regions[a]).virt_addr == old(
                        self,
                    )@.regions[a].virt_addr && m2.regions[a].data.len() == old(
                        self,
                    )@.regions[a].data.len());
            }
        }
    }

    /// Copy every dirty block back from the shadow and clear its bit.
    /// Afterwards the live bytes equal the shadow bytes everywhere and
    /// every dirty bit is clear.  Fails when no state was ever saved.
    pub fn reset_to_saved_state(&mut self) -> (r: Result<(), EmuError>)
        requires
            old(self).inv(),
        ensures
            final(self).inv(),
            match r {
                Ok(()) => old(self)@.saved is Some && final(self)@ == reset_spec(old(self)@),
                Err(e) => e == EmuError::NoSnapshot && old(self)@.saved is None && final(self)@
                    == old(self)@,
            },
    {
        let sh: &Vec<Vec<u8>> = match (&self.saved_state) {
            Option::Some(sh) => sh,
            Option::None => {
                return Err(EmuError::NoSnapshot);
            },
        };
        let n = self.allocated.len();
        proof {
            assert(sh@.map_values(|d: Vec<u8>| d@) == old(self)@.saved->0);
            assert(sh@.len() == n);
        }
        let mut i: usize = 0;
        while i < n
            invariant
                old(self)@.saved is Some,
                self.saved_state == old(self).saved_state,
                sh@.map_values(|d: Vec<u8>| d@) == old(self)@.saved->0,
                sh@.len() == n,
                n == self.allocated@.len(),
                i <= n,
                old(self).inv(),
                forall|j: int|
                    i <= j < n ==> #[trigger] self.allocated@[j] == old(self).allocated@[j],
                forall|j: int|
                    0 <= j < i ==> #[trigger] self.allocated@[j]@ == reset_spec(
                        old(self)@,
                    ).regions[j],
                forall|j: int|
                    0 <= j < i ==> (#[trigger] self.allocated@[j]).size
                        == self.allocated@[j].data@.len(),
            decreases n - i,
        {
            let ghost m0 = old(self)@;
            proof {
                assert(m0.regions[i as int] == old(self).allocated@[i as int]@);
                assert(old(self).allocated@[i as int].size == old(
                    self,
                ).allocated@[i as int].data@.len());
                assert(region_wf(m0.regions[i as int]));
            }
            let mut region = MemoryRegion {
                virt_addr: 0,
                size: 0,
                data: Vec::new(),
                dirty: Vec::new(),
            };
            self.allocated.set_and_swap(i, &mut region);
            let ghost orig = region@;
            let ghost shrow = m0.saved->0[i as int];
            let row: &Vec<u8> = &sh[i];
            let len_data = region.data.len();
            let nb = region.dirty.len();
            proof {
                assert(row@ == shrow);
                assert(clean_blocks_agree(orig, shrow));
                assert(shrow.len() == orig.data.len());
                assert(nb == num_blocks(len_data as int));
            }
            let mut j: usize = 0;
            while j < nb
                invariant
                    j <= nb,
                    nb == region.dirty@.len(),
                    nb == num_blocks(len_data as int),
                    region.virt_addr == orig.virt_addr,
                    region.size as int == orig.data.len(),
                    len_data == region.data@.len(),
                    region.data@.len() == orig.data.len(),
                    row@ == shrow,
                    shrow.len() == orig.data.len(),
                    clean_blocks_agree(orig, shrow),
                    orig.dirty.len() == nb,
                    forall|t: int|
                        0 <= t < nb ==> #[trigger] region.dirty@[t] == (if t < j {
                            false
                        } else {
                            orig.dirty[t]
                        }),
                    forall|t: int|
                        0 <= t < region.data@.len() && t < j * (BITMAP_SIZE as int)
                            ==> #[trigger] region.data@[t] == shrow[t],
                    forall|t: int|
                        j * (BITMAP_SIZE as int) <= t < region.data@.len()
                            ==> #[trigger] region.data@[t] == orig.data[t],
                decreases nb - j,
            {
                proof {
                    lemma_block_start(j as int, len_data as int);
                }
                let start = j * (BITMAP_SIZE as usize);
                let end = if len_data - start > (BITMAP_SIZE as usize) {
                    start + (BITMAP_SIZE as usize)
                } else {
                    len_data
                };
                if region.dirty[j] {
                    let ghost d0 = region.data@;
                    let ghost dirty0 = region.dirty@;
                    let ghost va0 = region.virt_addr;
                    let ghost size0 = region.size;
                    let mut k: usize = start;
                    while k < end
                        invariant
                            start <= k <= end,
                            end <= region.data@.len(),
                            region.data@.len() == d0.len(),
                            region.dirty@ == dirty0,
                            region.virt_addr == va0,
                            region.size == size0,
                            row@ == shrow,
                            shrow.len() == d0.len(),
                            forall|t: int|
                                0 <= t < d0.len() ==> #[trigger] region.data@[t] == (if start <= t
                                    < k {
                                    shrow[t]
                                } else {
                                    d0[t]
                                }),
                        decreases end - k,
                    {
                        let b = row[k];
                        region.data.set(k, b);
                        k += 1;
                    }
                }
                region.dirty.set(j, false);
                proof {
                    assert forall|t: int|
                        0 <= t < region.data@.len() && t < (j + 1) * (BITMAP_SIZE as int) implies #[trigger] region.data@[t]
                        == shrow[t] by {
                        if t >= j * (BITMAP_SIZE as int) {
                            lemma_block_split(t, j as int);
                            assert(block_of(t) == j as int);
                            if !orig.dirty[j as int] {
                                assert(orig.data[t] == shrow[t]);
                            }
                        }
                    }
                }
                j += 1;
            }
            proof {
                lemma_num_blocks_covers(len_data as int);
                assert(region@ =~~= reset_spec(m0).regions[i as int]);
            }
            self.allocated.set_and_swap(i, &mut region);
            i += 1;
        }
        proof {
            assert(self@ =~~= reset_spec(old(self)@));
            let m2 = self@;
            assert forall|j: int| 0 <= j < m2.regions.len() implies region_wf(
                #[trigger] m2.regions[j],
            ) by {
                assert(region_wf(old(self)@.regions[j]));
                assert(old(self)@.saved->0[j].len() == old(self)@.regions[j].data.len());
            }
            assert(regions_disjoint(m2.regions)) by {
                assert(forall|a: int|
                    0 <= a < m2.regions.len() ==> (#[trigger] m2.regions[a]).virt_addr == old(
                        self,
                    )@.regions[a].virt_addr && m2.regions[a].data.len() == old(
                        self,
                    )@.regions[a].data.len());
            }
        }
        Ok(())
    }
}

} // verus!
