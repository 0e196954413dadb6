//! The virtual core: an address-indexed snapshot of a target, merging flash
//! from the firmware archive with RAM and registers recovered from a dump.

use crate::error::DumpError;
use vstd::prelude::*;

verus! {

/// Size of the 32-bit address space.
pub const ADDRESS_SPACE: u64 = 0x1_0000_0000;

/// A flash region: `length` bytes at `base`, held at `offset` in the flash blob.
#[derive(Clone, Copy, Debug, PartialEq, Eq, Structural)]
pub struct FlashRegion {
    pub base: u32,
    pub length: u32,
    pub offset: usize,
}

/// A RAM region recovered from a dump.
#[derive(Debug)]
pub struct RamRegion {
    pub base: u32,
    pub bytes: Vec<u8>,
}

/// A frozen snapshot of a target, answering reads by address.
pub struct VirtualCore {
    flash: Vec<FlashRegion>,
    blob: Vec<u8>,
    ram: Vec<RamRegion>,
    registers: Vec<(u16, u32)>,
}

pub open spec fn ram_end(r: RamRegion) -> int {
    r.base + r.bytes@.len()
}

pub open spec fn flash_end(r: FlashRegion) -> int {
    r.base + r.length
}

pub open spec fn ram_holds(r: RamRegion, a: int) -> bool {
    r.base <= a < ram_end(r)
}

pub open spec fn flash_holds(r: FlashRegion, a: int) -> bool {
    r.base <= a < flash_end(r)
}

/// RAM regions in ascending order, pairwise disjoint, none empty, inside the
/// address space.
pub open spec fn ram_wf(rs: Seq<RamRegion>) -> bool {
    &&& forall|i: int| 0 <= i < rs.len() ==> ram_end(#[trigger] rs[i]) <= ADDRESS_SPACE && rs[i].bytes@.len() > 0
    &&& forall|i: int, j: int| 0 <= i < j < rs.len() ==> ram_end(#[trigger] rs[i]) <= (#[trigger] rs[j]).base
}

/// Flash regions in ascending order, pairwise disjoint, inside the address space
/// and inside a blob of `blob_len` bytes.
pub open spec fn flash_wf(fs: Seq<FlashRegion>, blob_len: nat) -> bool {
    &&& forall|i: int| 0 <= i < fs.len() ==> flash_end(#[trigger] fs[i]) <= ADDRESS_SPACE
        && fs[i].offset + fs[i].length <= blob_len
    &&& forall|i: int, j: int| 0 <= i < j < fs.len() ==> flash_end(#[trigger] fs[i]) <= (#[trigger] fs[j]).base
}

/// The byte at `a` of the RAM regions `rs`, if one holds `a`.
pub open spec fn ram_byte(rs: Seq<RamRegion>, a: int) -> Option<u8> {
    if exists|i: int| 0 <= i < rs.len() && ram_holds(#[trigger] rs[i], a) {
        let i = choose|i: int| 0 <= i < rs.len() && ram_holds(#[trigger] rs[i], a);
        Some(rs[i].bytes@[a - rs[i].base])
    } else {
        None
    }
}

/// The byte at `a` of the flash regions `fs` over `blob`, if one holds `a`.
pub open spec fn flash_byte(fs: Seq<FlashRegion>, blob: Seq<u8>, a: int) -> Option<u8> {
    if exists|i: int| 0 <= i < fs.len() && flash_holds(#[trigger] fs[i], a) {
        let i = choose|i: int| 0 <= i < fs.len() && flash_holds(#[trigger] fs[i], a);
        Some(blob[fs[i].offset + (a - fs[i].base)])
    } else {
        None
    }
}

/// The value last recorded for register `id`.
pub open spec fn register_in(rs: Seq<(u16, u32)>, id: u16) -> Option<u32>
    decreases rs.len(),
{
    if rs.len() == 0 {
        None
    } else if rs.last().0 == id {
        Some(rs.last().1)
    } else {
        register_in(rs.drop_last(), id)
    }
}

proof fn lemma_ram_byte_at(rs: Seq<RamRegion>, i: int, a: int)
    requires
        ram_wf(rs),
        0 <= i < rs.len(),
        ram_holds(rs[i], a),
    ensures
        ram_byte(rs, a) == Some(rs[i].bytes@[a - rs[i].base]),
{
    let j = choose|j: int| 0 <= j < rs.len() && ram_holds(#[trigger] rs[j], a);
    if j < i {
        assert(ram_end(rs[j]) <= rs[i].base);
    } else if i < j {
        assert(ram_end(rs[i]) <= rs[j].base);
    }
}

proof fn lemma_flash_byte_at(fs: Seq<FlashRegion>, blob: Seq<u8>, i: int, a: int)
    requires
        flash_wf(fs, blob.len()),
        0 <= i < fs.len(),
        flash_holds(fs[i], a),
    ensures
        flash_byte(fs, blob, a) == Some(blob[fs[i].offset + (a - fs[i].base)]),
{
    let j = choose|j: int| 0 <= j < fs.len() && flash_holds(#[trigger] fs[j], a);
    if j < i {
        assert(flash_end(fs[j]) <= fs[i].base);
    } else if i < j {
        assert(flash_end(fs[i]) <= fs[j].base);
    }
}

/// A read that stays inside one RAM region gives that region's bytes from
/// `a - base` on.
pub proof fn lemma_read_within_ram(c: &VirtualCore, i: int, a: int, n: int)
    requires
        c.wf(),
        0 <= i < c.ram_regions().len(),
        0 <= n,
        c.ram_regions()[i].base <= a,
        a + n <= ram_end(c.ram_regions()[i]),
    ensures
        forall|k: int| 0 <= k < n ==> #[trigger] c.byte_at(a + k)
            == Some(c.ram_regions()[i].bytes@.subrange(a - c.ram_regions()[i].base, a - c.ram_regions()[i].base + n)[k]),
{
    assert forall|k: int| 0 <= k < n implies #[trigger] c.byte_at(a + k)
        == Some(c.ram_regions()[i].bytes@.subrange(a - c.ram_regions()[i].base, a - c.ram_regions()[i].base + n)[k]) by {
        lemma_ram_byte_at(c.ram_regions(), i, a + k);
    }
}

/// A read that starts in one RAM region and ends in the region that follows it
/// without a gap gives the tail of the first, then the head of the second.
pub proof fn lemma_read_across_ram(c: &VirtualCore, i: int, j: int, a: int, n: int)
    requires
        c.wf(),
        0 <= i < c.ram_regions().len(),
        0 <= j < c.ram_regions().len(),
        ram_end(c.ram_regions()[i]) == c.ram_regions()[j].base,
        c.ram_regions()[i].base <= a <= ram_end(c.ram_regions()[i]) <= a + n <= ram_end(c.ram_regions()[j]),
    ensures
        forall|k: int| 0 <= k < n ==> #[trigger] c.byte_at(a + k) == Some((
            c.ram_regions()[i].bytes@.subrange(a - c.ram_regions()[i].base, c.ram_regions()[i].bytes@.len() as int)
            + c.ram_regions()[j].bytes@.subrange(0, a + n - c.ram_regions()[j].base))[k]),
{
    let ri = c.ram_regions()[i];
    let rj = c.ram_regions()[j];
    let joined = ri.bytes@.subrange(a - ri.base, ri.bytes@.len() as int) + rj.bytes@.subrange(0, a + n - rj.base);
    assert forall|k: int| 0 <= k < n implies #[trigger] c.byte_at(a + k) == Some(joined[k]) by {
        if a + k < ram_end(ri) {
            lemma_ram_byte_at(c.ram_regions(), i, a + k);
        } else {
            lemma_ram_byte_at(c.ram_regions(), j, a + k);
        }
    }
}

/// RAM shadows flash: where a RAM region and a flash region both hold `a`, a
/// read of `a` gives the RAM byte.
pub proof fn lemma_ram_shadows_flash(c: &VirtualCore, i: int, f: int, a: int)
    requires
        c.wf(),
        0 <= i < c.ram_regions().len(),
        0 <= f < c.flash_regions().len(),
        ram_holds(c.ram_regions()[i], a),
        flash_holds(c.flash_regions()[f], a),
    ensures
        c.byte_at(a) == Some(c.ram_regions()[i].bytes@[a - c.ram_regions()[i].base]),
{
    lemma_ram_byte_at(c.ram_regions(), i, a);
}

impl VirtualCore {
    pub closed spec fn ram_regions(&self) -> Seq<RamRegion> {
        self.ram@
    }

    pub closed spec fn flash_regions(&self) -> Seq<FlashRegion> {
        self.flash@
    }

    pub closed spec fn flash_blob(&self) -> Seq<u8> {
        self.blob@
    }

    pub closed spec fn register_list(&self) -> Seq<(u16, u32)> {
        self.registers@
    }

    pub open spec fn wf(&self) -> bool {
        ram_wf(self.ram_regions()) && flash_wf(self.flash_regions(), self.flash_blob().len())
    }

    /// What a read of one byte at `a` gives: the RAM byte if RAM holds `a`,
    /// else the flash byte if flash holds it, else nothing.
    pub open spec fn byte_at(&self, a: int) -> Option<u8> {
        match ram_byte(self.ram_regions(), a) {
            Some(b) => Some(b),
            None => flash_byte(self.flash_regions(), self.flash_blob(), a),
        }
    }

    /// The value captured for register `id`.
    pub open spec fn register(&self, id: u16) -> Option<u32> {
        register_in(self.register_list(), id)
    }

    /// A snapshot with the given flash map and no RAM or registers. Fails with
    /// `RegionOverlap` naming the first region that is out of order, overlaps its
    /// predecessor, wraps the address space or reaches past the blob.
    pub fn new(flash: Vec<FlashRegion>, blob: Vec<u8>) -> (r: Result<VirtualCore, DumpError>)
        ensures
            match r {
                Ok(c) => c.wf() && c.flash_regions() == flash@ && c.flash_blob() == blob@
                    && c.ram_regions().len() == 0 && c.register_list().len() == 0,
                Err(e) => !flash_wf(flash@, blob@.len()) && e is RegionOverlap,
            },
    {
        let mut i: usize = 0;
        while i < flash.len()
            invariant
                i <= flash@.len(),
                flash_wf(flash@.subrange(0, i as int), blob@.len()),
            decreases flash.len() - i,
        {
            let f = flash[i];
            let end = f.base as u64 + f.length as u64;
            let bad_prev = i > 0 && (flash[i - 1].base as u64 + flash[i - 1].length as u64) > f.base as u64;
            if end > ADDRESS_SPACE || f.offset > blob.len() || f.length as usize > blob.len() - f.offset || bad_prev {
                proof {
                    if bad_prev {
                        let (p, q) = (i - 1, i as int);
                        assert(flash_end(flash@[p]) > flash@[q].base);
                    } else {
                        assert(!(flash_end(flash@[i as int]) <= ADDRESS_SPACE
                            && flash@[i as int].offset + flash@[i as int].length <= blob@.len()));
                    }
                }
                return Err(DumpError::RegionOverlap { address: f.base });
            }
            proof {
                let s = flash@.subrange(0, i + 1);
                assert forall|p: int, q: int| 0 <= p < q < s.len() implies flash_end(#[trigger] s[p]) <= (#[trigger] s[q]).base by {
                    if q < i {
                        assert(s[p] == flash@.subrange(0, i as int)[p]);
                        assert(s[q] == flash@.subrange(0, i as int)[q]);
                    } else if p < i - 1 {
                        assert(s[p] == flash@.subrange(0, i as int)[p]);
                        assert(flash@.subrange(0, i as int)[i - 1] == flash@[i - 1]);
                        assert(flash_end(s[p]) <= flash@[i - 1].base);
                    }
                }
                assert forall|p: int| 0 <= p < s.len() implies flash_end(#[trigger] s[p]) <= ADDRESS_SPACE
                    && s[p].offset + s[p].length <= blob@.len() by {
                    if p < i {
                        assert(s[p] == flash@.subrange(0, i as int)[p]);
                    }
                }
            }
            i = i + 1;
        }
        proof {
            assert(flash@.subrange(0, flash@.len() as int) =~= flash@);
        }
        Ok(VirtualCore { flash, blob, ram: Vec::new(), registers: Vec::new() })
    }

    /// Whether a RAM region of `len` bytes at `base` fits in the address space
    /// beside the RAM regions present.
    pub open spec fn ram_fits(&self, base: int, len: int) -> bool {
        &&& base + len <= ADDRESS_SPACE
        &&& len > 0 ==> forall|i: int| 0 <= i < self.ram_regions().len() ==>
            ram_end(#[trigger] self.ram_regions()[i]) <= base || base + len <= self.ram_regions()[i].base
    }

    /// Adds a RAM region of `bytes` at `base` (no region if `bytes` is empty).
    /// Fails with `RegionOverlap` when it would overlap a region present or wrap
    /// the address space, and then changes nothing.
    pub fn add_ram_region(&mut self, base: u32, bytes: Vec<u8>) -> (r: Result<(), DumpError>)
        requires
            old(self).wf(),
        ensures
            final(self).wf(),
            final(self).flash_regions() == old(self).flash_regions(),
            final(self).flash_blob() == old(self).flash_blob(),
            final(self).register_list() == old(self).register_list(),
            r is Ok <==> old(self).ram_fits(base as int, bytes@.len() as int),
            r is Ok ==> forall|a: int| #[trigger] ram_byte(final(self).ram_regions(), a) == if base <= a < base + bytes@.len() {
                Some(bytes@[a - base])
            } else {
                ram_byte(old(self).ram_regions(), a)
            },
            r is Err ==> r == Err::<(), DumpError>(DumpError::RegionOverlap { address: base })
                && final(self).ram_regions() == old(self).ram_regions(),
    {
        let len = bytes.len();
        if len as u64 > ADDRESS_SPACE {
            return Err(DumpError::RegionOverlap { address: base });
        }
        if len == 0 {
            proof {
                assert forall|a: int| #[trigger] ram_byte(self.ram@, a) == ram_byte(old(self).ram@, a) by {}
            }
            return Ok(());
        }
        let mut p: usize = 0;
        while p < self.ram.len() && self.ram[p].base < base
            invariant
                p <= self.ram@.len(),
                ram_wf(self.ram@),
                forall|j: int| 0 <= j < p ==> (#[trigger] self.ram@[j]).base < base,
            decreases self.ram.len() - p,
        {
            p = p + 1;
        }
        let end = base as u64 + len as u64;
        let prev_ok = p == 0 || self.ram[p - 1].base as u64 + self.ram[p - 1].bytes.len() as u64 <= base as u64;
        let next_ok = p == self.ram.len() || end <= self.ram[p].base as u64;
        if end > ADDRESS_SPACE || !prev_ok || !next_ok {
            proof {
                if end <= ADDRESS_SPACE {
                    if !prev_ok {
                        let q = p - 1;
                        assert(!(ram_end(self.ram@[q]) <= base || base + len <= self.ram@[q].base));
                    } else {
                        assert(!(ram_end(self.ram@[p as int]) <= base || base + len <= self.ram@[p as int].base));
                    }
                }
            }
            return Err(DumpError::RegionOverlap { address: base });
        }
        let ghost old_ram = self.ram@;
        let ghost x = RamRegion { base, bytes };
        proof {
            assert forall|i: int| 0 <= i < old_ram.len() implies
                ram_end(#[trigger] old_ram[i]) <= base || base + len <= old_ram[i].base by {
                if i < p - 1 {
                    assert(ram_end(old_ram[i]) <= old_ram[p - 1].base);
                } else if i > p {
                    assert(ram_end(old_ram[p as int]) <= old_ram[i].base);
                }
            }
        }
        self.ram.insert(p, RamRegion { base, bytes });
        proof {
            let s = self.ram@;
            assert(s == old_ram.insert(p as int, x));
            assert forall|k: int| 0 <= k < s.len() implies #[trigger] s[k] == if k < p {
                old_ram[k]
            } else if k == p {
                x
            } else {
                old_ram[k - 1]
            } by {}
            assert forall|i: int| 0 <= i < s.len() implies ram_end(#[trigger] s[i]) <= ADDRESS_SPACE
                && s[i].bytes@.len() > 0 by {
                if i < p {
                    assert(s[i] == old_ram[i]);
                } else if i > p {
                    assert(s[i] == old_ram[i - 1]);
                }
            }
            assert forall|i: int, j: int| 0 <= i < j < s.len() implies ram_end(#[trigger] s[i]) <= (#[trigger] s[j]).base by {
                if j < p {
                    assert(s[i] == old_ram[i] && s[j] == old_ram[j]);
                } else if j == p {
                    assert(s[i] == old_ram[i]);
                    if i < p - 1 {
                        assert(ram_end(old_ram[i]) <= old_ram[p - 1].base);
                    }
                } else if i == p {
                    assert(s[j] == old_ram[j - 1]);
                    if j - 1 > p {
                        assert(ram_end(old_ram[p as int]) <= old_ram[j - 1].base);
                    }
                } else if i < p {
                    assert(s[i] == old_ram[i] && s[j] == old_ram[j - 1]);
                } else {
                    assert(s[i] == old_ram[i - 1] && s[j] == old_ram[j - 1]);
                }
            }
            assert(ram_wf(s));
            assert forall|a: int| #[trigger] ram_byte(s, a) == if base <= a < base + len {
                Some(x.bytes@[a - base])
            } else {
                ram_byte(old_ram, a)
            } by {
                if base <= a < base + len {
                    lemma_ram_byte_at(s, p as int, a);
                } else if exists|i: int| 0 <= i < old_ram.len() && ram_holds(#[trigger] old_ram[i], a) {
                    let i = choose|i: int| 0 <= i < old_ram.len() && ram_holds(#[trigger] old_ram[i], a);
                    lemma_ram_byte_at(old_ram, i, a);
                    if i < p {
                        assert(s[i] == old_ram[i]);
                        lemma_ram_byte_at(s, i, a);
                    } else {
                        assert(s[i + 1] == old_ram[i]);
                        lemma_ram_byte_at(s, i + 1, a);
                    }
                } else {
                    assert forall|k: int| 0 <= k < s.len() implies !ram_holds(#[trigger] s[k], a) by {
                        if k < p {
                            assert(s[k] == old_ram[k]);
                        } else if k > p {
                            assert(s[k] == old_ram[k - 1]);
                        }
                    }
                }
            }
        }
        Ok(())
    }

    /// Records the value of register `id`; a later value replaces an earlier one.
    pub fn add_register(&mut self, id: u16, value: u32)
        ensures
            final(self).ram_regions() == old(self).ram_regions(),
            final(self).flash_regions() == old(self).flash_regions(),
            final(self).flash_blob() == old(self).flash_blob(),
            final(self).register(id) == Some(value),
            forall|other: u16| other != id ==> final(self).register(other) == old(self).register(other),
    {
        self.registers.push((id, value));
        proof {
            assert(self.registers@.drop_last() =~= old(self).registers@);
        }
    }

    /// The captured value of register `id`; `UnknownRegister(id)` if the dump
    /// holds none.
    pub fn read_reg(&self, id: u16) -> (r: Result<u32, DumpError>)
        ensures
            match self.register(id) {
                Some(v) => r == Ok::<u32, DumpError>(v),
                None => r == Err::<u32, DumpError>(DumpError::UnknownRegister(id)),
            },
    {
        let mut i: usize = self.registers.len();
        proof {
            assert(self.registers@.subrange(0, i as int) =~= self.registers@);
        }
        while i > 0
            invariant
                i <= self.registers@.len(),
                register_in(self.registers@, id) == register_in(self.registers@.subrange(0, i as int), id),
            decreases i,
        {
            let (rid, v) = self.registers[i - 1];
            proof {
                let s = self.registers@.subrange(0, i as int);
                assert(s.drop_last() =~= self.registers@.subrange(0, i - 1));
            }
            if rid == id {
                return Ok(v);
            }
            i = i - 1;
        }
        Err(DumpError::UnknownRegister(id))
    }

    /// Writes are refused: the snapshot is frozen.
    pub fn write_8(&mut self, addr: u32, data: &[u8]) -> (r: Result<(), DumpError>)
        ensures
            r == Err::<(), DumpError>(DumpError::NotWritable),
            *final(self) == *old(self),
    {
        Err(DumpError::NotWritable)
    }

    /// The index of the RAM region that holds `a`, if any: the region with the
    /// greatest base not above `a`, when it reaches `a`.
    fn find_ram(&self, a: u32) -> (r: Option<usize>)
        requires
            self.wf(),
        ensures
            match r {
                Some(i) => i < self.ram_regions().len() && ram_holds(self.ram_regions()[i as int], a as int),
                None => forall|i: int| 0 <= i < self.ram_regions().len() ==> !ram_holds(#[trigger] self.ram_regions()[i], a as int),
            },
    {
        let mut best: Option<usize> = None;
        let mut i: usize = 0;
        while i < self.ram.len()
            invariant
                i <= self.ram@.len(),
                ram_wf(self.ram@),
                match best {
                    Some(b) => b < i && self.ram@[b as int].base <= a
                        && forall|j: int| b < j < i ==> (#[trigger] self.ram@[j]).base > a,
                    None => forall|j: int| 0 <= j < i ==> (#[trigger] self.ram@[j]).base > a,
                },
            decreases self.ram.len() - i,
        {
            if self.ram[i].base <= a {
                best = Some(i);
            }
            i = i + 1;
        }
        match best {
            Some(b) => {
                let r = &self.ram[b];
                if (a as u64) < r.base as u64 + r.bytes.len() as u64 {
                    Some(b)
                } else {
                    proof {
                        assert forall|j: int| 0 <= j < self.ram@.len() implies !ram_holds(#[trigger] self.ram@[j], a as int) by {
                            if j < b {
                                assert(ram_end(self.ram@[j]) <= self.ram@[b as int].base);
                            }
                        }
                    }
                    None
                }
            },
            None => None,
        }
    }

    /// The index of the flash region that holds `a`, if any.
    fn find_flash(&self, a: u32) -> (r: Option<usize>)
        requires
            self.wf(),
        ensures
            match r {
                Some(i) => i < self.flash_regions().len() && flash_holds(self.flash_regions()[i as int], a as int),
                None => forall|i: int| 0 <= i < self.flash_regions().len() ==> !flash_holds(#[trigger] self.flash_regions()[i], a as int),
            },
    {
        let mut best: Option<usize> = None;
        let mut i: usize = 0;
        while i < self.flash.len()
            invariant
                i <= self.flash@.len(),
                flash_wf(self.flash@, self.blob@.len()),
                match best {
                    Some(b) => b < i && self.flash@[b as int].base <= a
                        && forall|j: int| b < j < i ==> (#[trigger] self.flash@[j]).base > a,
                    None => forall|j: int| 0 <= j < i ==> (#[trigger] self.flash@[j]).base > a,
                },
            decreases self.flash.len() - i,
        {
            if self.flash[i].base <= a {
                best = Some(i);
            }
            i = i + 1;
        }
        match best {
            Some(b) => {
                let f = self.flash[b];
                if (a as u64) < f.base as u64 + f.length as u64 {
                    Some(b)
                } else {
                    proof {
                        assert forall|j: int| 0 <= j < self.flash@.len() implies !flash_holds(#[trigger] self.flash@[j], a as int) by {
                            if j < b {
                                assert(flash_end(self.flash@[j]) <= self.flash@[b as int].base);
                            }
                        }
                    }
                    None
                }
            },
            None => None,
        }
    }

    /// Reads `n` bytes at `addr`. Each byte comes from the RAM region that holds
    /// it, else from the flash region that holds it; the read walks across
    /// region boundaries. Fails with `AddressNotMapped` at the first address
    /// that neither holds.
    pub fn read(&self, addr: u32, n: usize) -> (r: Result<Vec<u8>, DumpError>)
        requires
            self.wf(),
            addr + n <= ADDRESS_SPACE,
        ensures
            match r {
                Ok(v) => v@.len() == n && forall|k: int| 0 <= k < n ==> self.byte_at(addr + k) == Some(#[trigger] v@[k]),
                Err(e) => exists|k: int| 0 <= k < n && #[trigger] self.byte_at(addr + k) is None
                    && e == DumpError::AddressNotMapped((addr + k) as u32)
                    && forall|j: int| 0 <= j < k ==> (#[trigger] self.byte_at(addr + j)) is Some,
            },
    {
        let mut out: Vec<u8> = Vec::new();
        while out.len() < n
            invariant
                self.wf(),
                addr + n <= ADDRESS_SPACE,
                out@.len() <= n,
                forall|k: int| 0 <= k < out@.len() ==> self.byte_at(addr + k) == Some(#[trigger] out@[k]),
            decreases n - out@.len(),
        {
            let cur = (addr as u64 + out.len() as u64) as u32;
            let want = n - out.len();
            match self.find_ram(cur) {
                Some(i) => {
                    let r = &self.ram[i];
                    let start = (cur - r.base) as usize;
                    let avail = r.bytes.len() - start;
                    let take = if avail < want { avail } else { want };
                    let ghost before = out@.len();
                    let mut j: usize = 0;
                    while j < take
                        invariant
                            self.wf(),
                            i < self.ram@.len(),
                            *r == self.ram@[i as int],
                            r.base <= cur,
                            cur == addr + before,
                            start == cur - r.base,
                            start + take <= r.bytes@.len(),
                            j <= take,
                            before + take <= n,
                            out@.len() == before + j,
                            forall|k: int| 0 <= k < out@.len() ==> self.byte_at(addr + k) == Some(#[trigger] out@[k]),
                        decreases take - j,
                    {
                        proof {
                            lemma_ram_byte_at(self.ram@, i as int, cur + j);
                        }
                        out.push(r.bytes[start + j]);
                        j = j + 1;
                    }
                },
                None => {
                    proof {
                        assert(ram_byte(self.ram@, cur as int) is None);
                    }
                    match self.find_flash(cur) {
                        None => {
                            proof {
                                assert(self.byte_at(addr + out@.len()) is None);
                                assert forall|j: int| 0 <= j < out@.len() implies (#[trigger] self.byte_at(addr + j)) is Some by {
                                    assert(self.byte_at(addr + j) == Some(out@[j]));
                                }
                            }
                            return Err(DumpError::AddressNotMapped(cur));
                        },
                        Some(i) => {
                            let f = self.flash[i];
                            proof {
                                assert(flash_wf(self.flash@, self.blob@.len()));
                                assert(flash_end(self.flash@[i as int]) <= ADDRESS_SPACE);
                                assert(f.offset + f.length <= self.blob@.len());
                                assert(self.blob@.len() == self.blob.len());
                            }
                            let next = self.next_ram_base(cur);
                            let fend = f.base as u64 + f.length as u64;
                            let limit = if next < fend { next } else { fend };
                            let avail = (limit - cur as u64) as usize;
                            let take = if avail < want { avail } else { want };
                            let start = f.offset + (cur - f.base) as usize;
                            let ghost before = out@.len();
                            let mut j: usize = 0;
                            while j < take
                                invariant
                                    self.wf(),
                                    i < self.flash@.len(),
                                    f == self.flash@[i as int],
                                    f.base <= cur,
                                    f.offset + f.length <= self.blob@.len(),
                                    cur == addr + before,
                                    start == f.offset + (cur - f.base),
                                    start + take <= self.blob.len(),
                                    cur + take <= flash_end(f),
                                    cur + take <= next,
                                    forall|q: int| 0 <= q < self.ram@.len() && (#[trigger] self.ram@[q]).base > cur
                                        ==> self.ram@[q].base >= next,
                                    forall|q: int| 0 <= q < self.ram@.len() ==> !ram_holds(#[trigger] self.ram@[q], cur as int),
                                    j <= take,
                                    before + take <= n,
                                    out@.len() == before + j,
                                    forall|k: int| 0 <= k < out@.len() ==> self.byte_at(addr + k) == Some(#[trigger] out@[k]),
                                decreases take - j,
                            {
                                proof {
                                    let a = cur + j;
                                    assert forall|q: int| 0 <= q < self.ram@.len() implies !ram_holds(#[trigger] self.ram@[q], a) by {
                                        if self.ram@[q].base > cur {
                                            assert(self.ram@[q].base >= next);
                                        } else {
                                            assert(!ram_holds(self.ram@[q], cur as int));
                                        }
                                    }
                                    assert(ram_byte(self.ram@, a) is None);
                                    lemma_flash_byte_at(self.flash@, self.blob@, i as int, a);
                                }
                                out.push(self.blob[start + j]);
                                j = j + 1;
                            }
                        },
                    }
                },
            }
        }
        Ok(out)
    }

    /// The lowest base of a RAM region above `a`, or the end of the address space.
    fn next_ram_base(&self, a: u32) -> (r: u64)
        requires
            self.wf(),
        ensures
            a < r <= ADDRESS_SPACE,
            forall|i: int| 0 <= i < self.ram_regions().len() && (#[trigger] self.ram_regions()[i]).base > a
                ==> self.ram_regions()[i].base >= r,
    {
        let mut i: usize = 0;
        while i < self.ram.len()
            invariant
                i <= self.ram@.len(),
                ram_wf(self.ram@),
                forall|j: int| 0 <= j < i ==> (#[trigger] self.ram@[j]).base <= a,
            decreases self.ram.len() - i,
        {
            if self.ram[i].base > a {
                proof {
                    assert forall|j: int| 0 <= j < self.ram@.len() && (#[trigger] self.ram@[j]).base > a
                        implies self.ram@[j].base >= self.ram@[i as int].base by {
                        if j < i {
                        } else if j > i {
                            assert(ram_end(self.ram@[i as int]) <= self.ram@[j].base);
                        }
                    }
                }
                return self.ram[i].base as u64;
            }
            i = i + 1;
        }
        ADDRESS_SPACE
    }
}

} // verus!
