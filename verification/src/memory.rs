//! The native memory that pointers refer to: a set of mapped blocks of
//! bytes, each at its own range of addresses.
//!
//! A block is mapped by an allocation or by handing in bytes found at an
//! address. Every access names an address and a length and succeeds only
//! where the whole range is mapped; one unmapped address at least lies
//! between two blocks, so no access runs from one block into the next. The
//! null address is never mapped.

use vstd::prelude::*;
use crate::align::{align_up, is_power_of_two, spec_align_up, spec_is_power_of_two};
use crate::errors::FfiError;

verus! {

/// One mapped block.
pub struct Region {
    base: usize,
    data: Vec<u8>,
}

impl Region {
    spec fn contains(&self, addr: int) -> bool {
        self.base <= addr < self.base + self.data@.len()
    }

    spec fn holds(&self, addr: int, len: int) -> bool {
        self.base <= addr && addr + len <= self.base + self.data@.len()
    }
}

/// Mapped memory. Its view gives the byte at each mapped address.
pub struct Memory {
    regions: Vec<Region>,
    frontier: usize,
    next_id: usize,
}

spec fn some_region_contains(rs: Seq<Region>, addr: int) -> bool {
    exists|i: int| 0 <= i < rs.len() && #[trigger] rs[i].contains(addr)
}

spec fn region_of(rs: Seq<Region>, addr: int) -> int {
    choose|i: int| 0 <= i < rs.len() && #[trigger] rs[i].contains(addr)
}

spec fn regions_apart(rs: Seq<Region>, frontier: int) -> bool {
    &&& forall|i: int|
        0 <= i < rs.len() ==> 1 <= (#[trigger] rs[i]).base && rs[i].base + rs[i].data@.len()
            <= frontier && rs[i].data@.len() >= 1
    &&& forall|i: int, j: int|
        0 <= i < j < rs.len() ==> (#[trigger] rs[i]).base + rs[i].data@.len() < (
        #[trigger] rs[j]).base
}

spec fn regions_view(rs: Seq<Region>) -> Map<int, u8> {
    Map::new(
        |a: int| some_region_contains(rs, a),
        |a: int|
            {
                let r = rs[region_of(rs, a)];
                r.data@[a - r.base]
            },
    )
}

/// The range of `len` addresses from `addr`, each with its byte of `bytes`.
pub open spec fn block(addr: int, bytes: Seq<u8>) -> Map<int, u8> {
    Map::new(|a: int| addr <= a < addr + bytes.len(), |a: int| bytes[a - addr])
}

/// Whether the addresses from `base` up to `base + size` are one whole block
/// of the mapping `m`: all mapped, with the address before and the one after
/// unmapped.
pub open spec fn map_is_block(m: Map<int, u8>, base: int, size: int) -> bool {
    &&& size >= 1
    &&& forall|a: int| base <= a < base + size ==> m.dom().contains(a)
    &&& !m.dom().contains(base - 1)
    &&& !m.dom().contains(base + size)
}

/// The addresses from `addr` up to `addr + len`.
pub open spec fn range(addr: int, len: int) -> Set<int> {
    Set::new(|a: int| addr <= a < addr + len)
}

proof fn lemma_region_view(rs: Seq<Region>, frontier: int, i: int, a: int)
    requires
        regions_apart(rs, frontier),
        0 <= i < rs.len(),
        rs[i].contains(a),
    ensures
        regions_view(rs).dom().contains(a),
        regions_view(rs)[a] == rs[i].data@[a - rs[i].base],
        region_of(rs, a) == i,
{
    assert(some_region_contains(rs, a));
    let j = region_of(rs, a);
    assert(0 <= j < rs.len() && rs[j].contains(a));
    if j < i {
        assert(rs[j].base + rs[j].data@.len() < rs[i].base);
    } else if i < j {
        assert(rs[i].base + rs[i].data@.len() < rs[j].base);
    }
}

proof fn lemma_region_holds(rs: Seq<Region>, frontier: int, i: int, addr: int, len: int)
    requires
        regions_apart(rs, frontier),
        0 <= i < rs.len(),
        rs[i].contains(addr),
        len >= 1,
        forall|a: int| addr <= a < addr + len ==> regions_view(rs).dom().contains(a),
    ensures
        rs[i].holds(addr, len),
{
    let e = rs[i].base + rs[i].data@.len();
    if addr + len > e {
        assert(regions_view(rs).dom().contains(e));
        assert(some_region_contains(rs, e));
        let j = region_of(rs, e);
        assert(rs[j].contains(e));
        if j < i {
            assert(rs[j].base + rs[j].data@.len() < rs[i].base);
        } else if i < j {
            assert(rs[i].base + rs[i].data@.len() < rs[j].base);
        }
        assert(false);
    }
}

proof fn lemma_view_push(rs: Seq<Region>, r: Region, frontier: int)
    requires
        regions_apart(rs, r.base - 1),
        1 <= r.base,
        r.data@.len() >= 1,
        r.base + r.data@.len() <= frontier,
    ensures
        regions_apart(rs.push(r), frontier),
        regions_view(rs.push(r)) == regions_view(rs).union_prefer_right(
            block(r.base as int, r.data@),
        ),
{
    let ns = rs.push(r);
    let n = rs.len() as int;
    assert(ns[n] == r);
    assert forall|i: int| 0 <= i < n implies ns[i] == rs[i] by {}
    assert(regions_apart(ns, frontier)) by {
        assert forall|i: int, j: int| 0 <= i < j < ns.len() implies (#[trigger] ns[i]).base
            + ns[i].data@.len() < (#[trigger] ns[j]).base by {
            assert(rs[i].base + rs[i].data@.len() <= r.base - 1);
            if j < n {
                assert(rs[i].base + rs[i].data@.len() < rs[j].base);
            }
        }
        assert forall|i: int| 0 <= i < ns.len() implies 1 <= (#[trigger] ns[i]).base
            && ns[i].base + ns[i].data@.len() <= frontier && ns[i].data@.len() >= 1 by {
            if i < n {
                assert(1 <= rs[i].base && rs[i].base + rs[i].data@.len() <= r.base - 1);
            }
        }
    }
    let expect = regions_view(rs).union_prefer_right(block(r.base as int, r.data@));
    assert forall|a: int| regions_view(ns).dom().contains(a) == expect.dom().contains(a) by {
        if some_region_contains(ns, a) {
            let j = region_of(ns, a);
            if j < n {
                assert(rs[j].contains(a));
            }
        }
        if some_region_contains(rs, a) {
            let j = region_of(rs, a);
            assert(ns[j].contains(a));
        }
        if r.base <= a < r.base + r.data@.len() {
            assert(ns[n].contains(a));
        }
    }
    assert forall|a: int| regions_view(ns).dom().contains(a) implies regions_view(ns)[a]
        == expect[a] by {
        let j = region_of(ns, a);
        assert(ns[j].contains(a));
        lemma_region_view(ns, frontier, j, a);
        if j < n {
            assert(rs[j].contains(a));
            assert(rs[j].base + rs[j].data@.len() <= r.base - 1);
            lemma_region_view(rs, r.base - 1, j, a);
        }
    }
    assert(regions_view(ns) =~= expect);
}

proof fn lemma_view_remove(rs: Seq<Region>, i: int, frontier: int)
    requires
        regions_apart(rs, frontier),
        0 <= i < rs.len(),
    ensures
        regions_apart(rs.remove(i), frontier),
        regions_view(rs.remove(i)) == regions_view(rs).remove_keys(
            range(rs[i].base as int, rs[i].data@.len() as int),
        ),
{
    let ns = rs.remove(i);
    assert forall|j: int| 0 <= j < ns.len() implies ns[j] == rs[if j < i {
        j
    } else {
        j + 1
    }] by {}
    assert(regions_apart(ns, frontier)) by {
        assert forall|a: int, b: int| 0 <= a < b < ns.len() implies (#[trigger] ns[a]).base
            + ns[a].data@.len() < (#[trigger] ns[b]).base by {
            let a2 = if a < i {
                a
            } else {
                a + 1
            };
            let b2 = if b < i {
                b
            } else {
                b + 1
            };
            assert(rs[a2].base + rs[a2].data@.len() < rs[b2].base);
        }
        assert forall|a: int| 0 <= a < ns.len() implies 1 <= (#[trigger] ns[a]).base
            && ns[a].base + ns[a].data@.len() <= frontier && ns[a].data@.len() >= 1 by {
            let a2 = if a < i {
                a
            } else {
                a + 1
            };
            assert(1 <= rs[a2].base);
        }
    }
    let expect = regions_view(rs).remove_keys(range(rs[i].base as int, rs[i].data@.len() as int));
    assert forall|a: int| regions_view(ns).dom().contains(a) == expect.dom().contains(a) by {
        if some_region_contains(ns, a) {
            let j = region_of(ns, a);
            let j2 = if j < i {
                j
            } else {
                j + 1
            };
            assert(rs[j2].contains(a));
            if j2 < i {
                assert(rs[j2].base + rs[j2].data@.len() < rs[i].base);
            } else {
                assert(rs[i].base + rs[i].data@.len() < rs[j2].base);
            }
        }
        if some_region_contains(rs, a) && !rs[i].contains(a) {
            let j = region_of(rs, a);
            let j2 = if j < i {
                j
            } else {
                j - 1
            };
            assert(ns[j2].contains(a));
        }
    }
    assert forall|a: int| regions_view(ns).dom().contains(a) implies regions_view(ns)[a]
        == expect[a] by {
        let j = region_of(ns, a);
        let j2 = if j < i {
            j
        } else {
            j + 1
        };
        assert(ns[j].contains(a));
        assert(rs[j2].contains(a));
        lemma_region_view(ns, frontier, j, a);
        lemma_region_view(rs, frontier, j2, a);
    }
    assert(regions_view(ns) =~= expect);
}

impl View for Memory {
    type V = Map<int, u8>;

    closed spec fn view(&self) -> Map<int, u8> {
        regions_view(self.regions@)
    }
}

impl Memory {
    /// The invariant of the type: blocks lie apart, above the null address
    /// and below the frontier.
    pub closed spec fn wf(&self) -> bool {
        &&& self.next_id >= 1
        &&& regions_apart(self.regions@, self.frontier as int)
    }

    /// An address that no block reaches: every mapped address is below it.
    pub closed spec fn spec_frontier(&self) -> int {
        self.frontier as int
    }

    /// The identifier that the next arena gets.
    pub closed spec fn spec_next_id(&self) -> int {
        self.next_id as int
    }

    /// Whether every address from `addr` up to `addr + len` is mapped.
    pub open spec fn spec_mapped(&self, addr: int, len: int) -> bool {
        forall|a: int| addr <= a < addr + len ==> self@.dom().contains(a)
    }

    /// The `len` bytes from `addr` on.
    pub open spec fn spec_bytes(&self, addr: int, len: int) -> Seq<u8> {
        Seq::new(len as nat, |k: int| self@[addr + k])
    }

    /// Whether the addresses from `base` up to `base + size` are one whole
    /// block: all mapped, with the address before and the one after unmapped.
    pub open spec fn spec_is_block(&self, base: int, size: int) -> bool {
        map_is_block(self@, base, size)
    }

    /// Where an allocation of the given alignment is placed: the first
    /// multiple of the alignment above the frontier.
    pub open spec fn spec_placement(&self, align: int) -> int {
        spec_align_up(self.spec_frontier() + 1, align)
    }

    /// Whether the first zero byte at or after `addr` is the one at
    /// `addr + n`, with every address up to it mapped.
    pub open spec fn spec_terminated(&self, addr: int, n: int) -> bool {
        &&& n >= 0
        &&& self.spec_mapped(addr, n + 1)
        &&& self@[addr + n] == 0
        &&& forall|a: int| addr <= a < addr + n ==> #[trigger] self@[a] != 0
    }

    /// The bytes of the zero-terminated string at `addr`, without the
    /// terminator; `None` where the mapped memory ends before a zero byte.
    pub open spec fn spec_c_string(&self, addr: int) -> Option<Seq<u8>> {
        if exists|n: int| self.spec_terminated(addr, n) {
            Some(self.spec_bytes(addr, choose|n: int| self.spec_terminated(addr, n)))
        } else {
            None
        }
    }

    /// Whether a block of `size` bytes on `align` can be placed: the size is
    /// not 0, the alignment is a power of two, and the block ends within the
    /// address space.
    pub open spec fn spec_can_place(&self, size: usize, align: usize) -> bool {
        &&& size >= 1
        &&& spec_is_power_of_two(spec_effective_align(align as int))
        &&& self.spec_placement(spec_effective_align(align as int)) + size <= usize::MAX
    }

    /// Memory with nothing mapped.
    pub fn new() -> (r: Memory)
        ensures
            r.wf(),
            r@ == Map::<int, u8>::empty(),
            r.spec_frontier() == 0,
            r.spec_next_id() == 1,
    {
        let r = Memory { regions: Vec::new(), frontier: 0, next_id: 1 };
        assert(r@ =~= Map::<int, u8>::empty());
        r
    }

    /// Every mapped address is above the null address and below the
    /// frontier.
    pub proof fn lemma_mapped_bounds(&self, addr: int)
        requires
            self.wf(),
            self@.dom().contains(addr),
        ensures
            1 <= addr < self.spec_frontier(),
            addr < usize::MAX,
    {
        let i = region_of(self.regions@, addr);
        assert(self.regions@[i].contains(addr));
    }

    fn find(&self, addr: usize, len: usize) -> (r: Option<usize>)
        requires
            self.wf(),
            len >= 1,
        ensures
            match r {
                Some(i) => i < self.regions@.len() && self.regions@[i as int].holds(
                    addr as int,
                    len as int,
                ) && self.spec_mapped(addr as int, len as int),
                None => !self.spec_mapped(addr as int, len as int),
            },
    {
        let mut i: usize = 0;
        while i < self.regions.len()
            invariant
                self.wf(),
                len >= 1,
                i <= self.regions@.len(),
                forall|j: int| 0 <= j < i ==> !(#[trigger] self.regions@[j]).holds(
                    addr as int,
                    len as int,
                ),
            decreases self.regions@.len() - i,
        {
            let base = self.regions[i].base;
            let size = self.regions[i].data.len();
            if base <= addr && addr - base <= size && len <= size - (addr - base) {
                proof {
                    assert forall|a: int| addr <= a < addr + len implies self@.dom().contains(
                        a,
                    ) by {
                        lemma_region_view(self.regions@, self.frontier as int, i as int, a);
                    }
                }
                return Some(i);
            }
            i = i + 1;
        }
        proof {
            if self.spec_mapped(addr as int, len as int) {
                assert(self@.dom().contains(addr as int));
                let j = region_of(self.regions@, addr as int);
                assert(self.regions@[j].contains(addr as int));
                lemma_region_holds(
                    self.regions@,
                    self.frontier as int,
                    j,
                    addr as int,
                    len as int,
                );
                assert(false);
            }
        }
        None
    }

    /// Whether every address of the range is mapped.
    pub fn is_mapped(&self, addr: usize, len: usize) -> (r: bool)
        requires
            self.wf(),
        ensures
            r == self.spec_mapped(addr as int, len as int),
    {
        len == 0 || self.find(addr, len).is_some()
    }

    /// The `len` bytes from `addr` on, where all of them are mapped.
    pub fn load(&self, addr: usize, len: usize) -> (r: Option<Vec<u8>>)
        requires
            self.wf(),
        ensures
            r.is_some() == self.spec_mapped(addr as int, len as int),
            match r {
                Some(v) => v@ == self.spec_bytes(addr as int, len as int),
                None => true,
            },
    {
        let mut out: Vec<u8> = Vec::new();
        if len == 0 {
            assert(out@ =~= self.spec_bytes(addr as int, len as int));
            return Some(out);
        }
        match self.find(addr, len) {
            None => None,
            Some(i) => {
                let off = addr - self.regions[i].base;
                let mut k: usize = 0;
                while k < len
                    invariant
                        self.wf(),
                        i < self.regions@.len(),
                        self.regions@[i as int].holds(addr as int, len as int),
                        off == addr - self.regions@[i as int].base,
                        k <= len,
                        out@.len() == k,
                        forall|p: int| 0 <= p < k ==> out@[p] == self@[addr + p],
                    decreases len - k,
                {
                    proof {
                        lemma_region_view(
                            self.regions@,
                            self.frontier as int,
                            i as int,
                            addr + k,
                        );
                    }
                    out.push(self.regions[i].data[off + k]);
                    k = k + 1;
                }
                assert(out@ =~= self.spec_bytes(addr as int, len as int));
                Some(out)
            },
        }
    }

    /// Writes `bytes` from `addr` on, where the whole range is mapped;
    /// otherwise nothing changes.
    pub fn store(&mut self, addr: usize, bytes: &[u8]) -> (ok: bool)
        requires
            old(self).wf(),
        ensures
            final(self).wf(),
            ok == old(self).spec_mapped(addr as int, bytes@.len() as int),
            ok ==> final(self)@ == old(self)@.union_prefer_right(block(addr as int, bytes@)),
            !ok ==> final(self)@ == old(self)@,
            final(self).spec_frontier() == old(self).spec_frontier(),
            final(self).spec_next_id() == old(self).spec_next_id(),
    {
        let len = bytes.len();
        if len == 0 {
            assert(self@ =~= self@.union_prefer_right(block(addr as int, bytes@)));
            return true;
        }
        match self.find(addr, len) {
            None => false,
            Some(i) => {
                let off = addr - self.regions[i].base;
                let mut k: usize = 0;
                while k < len
                    invariant
                        len == bytes@.len(),
                        i < self.regions@.len(),
                        self.regions@.len() == old(self).regions@.len(),
                        self.frontier == old(self).frontier,
                        self.next_id == old(self).next_id,
                        old(self).regions@[i as int].holds(addr as int, len as int),
                        off == addr - old(self).regions@[i as int].base,
                        off + len <= self.regions@[i as int].data@.len(),
                        off + len <= usize::MAX,
                        k <= len,
                        forall|j: int|
                            0 <= j < self.regions@.len() ==> (#[trigger] self.regions@[j]).base
                                == old(self).regions@[j].base && self.regions@[j].data@.len()
                                == old(self).regions@[j].data@.len(),
                        forall|j: int|
                            0 <= j < self.regions@.len() && j != i ==> (
                            #[trigger] self.regions@[j]).data@ == old(self).regions@[j].data@,
                        forall|p: int|
                            0 <= p < self.regions@[i as int].data@.len() ==> self.regions@[i as int].data@[p]
                                == if off <= p < off + k {
                                bytes@[p - off]
                            } else {
                                old(self).regions@[i as int].data@[p]
                            },
                    decreases len - k,
                {
                    self.regions[i].data[off + k] = bytes[k];
                    k = k + 1;
                }
                proof {
                    let old_rs = old(self).regions@;
                    let new_rs = self.regions@;
                    let fr = self.frontier as int;
                    assert(regions_apart(new_rs, fr)) by {
                        assert forall|a: int, b: int| 0 <= a < b < new_rs.len() implies (
                        #[trigger] new_rs[a]).base + new_rs[a].data@.len() < (
                        #[trigger] new_rs[b]).base by {
                            assert(old_rs[a].base + old_rs[a].data@.len() < old_rs[b].base);
                        }
                        assert forall|a: int| 0 <= a < new_rs.len() implies 1 <= (
                        #[trigger] new_rs[a]).base && new_rs[a].base + new_rs[a].data@.len()
                            <= fr && new_rs[a].data@.len() >= 1 by {
                            assert(1 <= old_rs[a].base);
                        }
                    }
                    let expect = old(self)@.union_prefer_right(block(addr as int, bytes@));
                    assert forall|a: int| self@.dom().contains(a) == expect.dom().contains(
                        a,
                    ) by {
                        if some_region_contains(new_rs, a) {
                            let j = region_of(new_rs, a);
                            assert(old_rs[j].contains(a));
                        }
                        if some_region_contains(old_rs, a) {
                            let j = region_of(old_rs, a);
                            assert(new_rs[j].contains(a));
                        }
                        if addr <= a < addr + len {
                            assert(new_rs[i as int].contains(a));
                        }
                    }
                    assert forall|a: int| self@.dom().contains(a) implies self@[a] == expect[a] by {
                        let j = region_of(new_rs, a);
                        assert(new_rs[j].contains(a));
                        assert(old_rs[j].contains(a));
                        lemma_region_view(new_rs, fr, j, a);
                        lemma_region_view(old_rs, fr, j, a);
                        if addr <= a < addr + len {
                            assert(old_rs[i as int].contains(a));
                            lemma_region_view(old_rs, fr, i as int, a);
                        }
                    }
                    assert(self@ =~= expect);
                }
                true
            },
        }
    }
    /// Sets the `len` bytes from `addr` on to `byte`, where the whole range
    /// is mapped; otherwise nothing changes.
    pub fn fill(&mut self, addr: usize, len: usize, byte: u8) -> (ok: bool)
        requires
            old(self).wf(),
        ensures
            final(self).wf(),
            ok == old(self).spec_mapped(addr as int, len as int),
            ok ==> final(self)@ == old(self)@.union_prefer_right(
                block(addr as int, Seq::new(len as nat, |k: int| byte)),
            ),
            !ok ==> final(self)@ == old(self)@,
            final(self).spec_frontier() == old(self).spec_frontier(),
            final(self).spec_next_id() == old(self).spec_next_id(),
    {
        if !self.is_mapped(addr, len) {
            return false;
        }
        let mut data: Vec<u8> = Vec::new();
        let mut k: usize = 0;
        while k < len
            invariant
                k <= len,
                data@.len() == k,
                forall|p: int| 0 <= p < k ==> data@[p] == byte,
            decreases len - k,
        {
            data.push(byte);
            k = k + 1;
        }
        assert(data@ =~= Seq::new(len as nat, |k: int| byte));
        self.store(addr, data.as_slice())
    }

    /// Copies the `len` bytes at `src` to `dst`, where both ranges are
    /// mapped; otherwise nothing changes.
    pub fn copy(&mut self, dst: usize, src: usize, len: usize) -> (ok: bool)
        requires
            old(self).wf(),
        ensures
            final(self).wf(),
            ok == (old(self).spec_mapped(src as int, len as int) && old(self).spec_mapped(
                dst as int,
                len as int,
            )),
            ok ==> final(self)@ == old(self)@.union_prefer_right(
                block(dst as int, old(self).spec_bytes(src as int, len as int)),
            ),
            !ok ==> final(self)@ == old(self)@,
            final(self).spec_frontier() == old(self).spec_frontier(),
            final(self).spec_next_id() == old(self).spec_next_id(),
    {
        match self.load(src, len) {
            None => false,
            Some(bytes) => self.store(dst, bytes.as_slice()),
        }
    }

    /// Maps the bytes `data`, `size` of them, as a fresh block on a multiple
    /// of `align` (taken as 1 where it is 0) and gives its address. `data` is
    /// what the allocator of the process gave for the block, or `None` where
    /// it had no memory left.
    ///
    /// The block is placed where the size is not 0, the alignment is a power
    /// of two, the allocator gave memory, and the block has room below the end
    /// of the address space. Otherwise nothing changes, and the error names
    /// the first of these that failed.
    pub fn allocate_from(&mut self, size: usize, align: usize, data: Option<Vec<u8>>) -> (r: Result<
        usize,
        FfiError,
    >)
        requires
            old(self).wf(),
            data matches Some(v) ==> v@.len() == size,
        ensures
            final(self).wf(),
            final(self).spec_next_id() == old(self).spec_next_id(),
            r.is_ok() == (old(self).spec_can_place(size, align) && data is Some),
            match r {
                Ok(base) => {
                    &&& base == old(self).spec_placement(spec_effective_align(align as int))
                    &&& base >= 1
                    &&& base as int % spec_effective_align(align as int) == 0
                    &&& forall|a: int| base <= a < base + size ==> !old(self)@.dom().contains(a)
                    &&& final(self)@ == old(self)@.union_prefer_right(
                        block(base as int, data->Some_0@),
                    )
                    &&& final(self).spec_frontier() == base + size
                },
                Err(e) => {
                    &&& final(self)@ == old(self)@
                    &&& final(self).spec_frontier() == old(self).spec_frontier()
                    &&& e == spec_allocation_error(size, align)
                },
            },
    {
        let a = if align == 0 {
            1
        } else {
            align
        };
        if size == 0 {
            return Err(FfiError::InvalidSize);
        }
        if !is_power_of_two(a) {
            return Err(FfiError::InvalidAlignment);
        }
        proof {
            crate::align::lemma_padding(self.frontier + 1, a as int);
        }
        let start = match self.frontier.checked_add(1) {
            Some(s) => s,
            None => {
                return Err(FfiError::OutOfMemory);
            },
        };
        let base = match align_up(start, a) {
            Some(b) => b,
            None => {
                return Err(FfiError::OutOfMemory);
            },
        };
        let end = match base.checked_add(size) {
            Some(e) => e,
            None => {
                return Err(FfiError::OutOfMemory);
            },
        };
        let data = match data {
            Some(data) => data,
            None => {
                return Err(FfiError::OutOfMemory);
            },
        };
        let region = Region { base, data };
        proof {
            assert(regions_apart(self.regions@, base - 1)) by {
                assert forall|i: int| 0 <= i < self.regions@.len() implies 1 <= (
                #[trigger] self.regions@[i]).base && self.regions@[i].base
                    + self.regions@[i].data@.len() <= base - 1 && self.regions@[i].data@.len()
                    >= 1 by {
                    assert(self.regions@[i].base + self.regions@[i].data@.len()
                        <= self.frontier);
                }
            }
            lemma_view_push(self.regions@, region, end as int);
            assert forall|a: int| base <= a < base + size implies !self@.dom().contains(a) by {
                if self@.dom().contains(a) {
                    self.lemma_mapped_bounds(a);
                }
            }
        }
        self.regions.push(region);
        self.frontier = end;
        Ok(base)
    }

    /// Whether a block of `size` bytes on `align` can be placed.
    pub fn can_place(&self, size: usize, align: usize) -> (r: bool)
        requires
            self.wf(),
        ensures
            r == self.spec_can_place(size, align),
    {
        let a = if align == 0 {
            1
        } else {
            align
        };
        if size == 0 || !is_power_of_two(a) {
            return false;
        }
        proof {
            crate::align::lemma_padding(self.frontier + 1, a as int);
        }
        match self.frontier.checked_add(1) {
            None => false,
            Some(start) => match align_up(start, a) {
                None => false,
                Some(base) => base.checked_add(size).is_some(),
            },
        }
    }

    /// Maps a fresh block of `size` zero bytes on a multiple of `align`
    /// (taken as 1 where it is 0) and gives its address.
    ///
    /// An allocation that cannot be placed fails as `allocate_from` says.
    /// One that can be placed succeeds unless the allocator of the process has
    /// no memory left, which is out of memory too. A failure changes nothing.
    pub fn allocate(&mut self, size: usize, align: usize) -> (r: Result<usize, FfiError>)
        requires
            old(self).wf(),
        ensures
            final(self).wf(),
            final(self).spec_next_id() == old(self).spec_next_id(),
            !old(self).spec_can_place(size, align) ==> r is Err,
            match r {
                Ok(base) => {
                    &&& old(self).spec_can_place(size, align)
                    &&& base == old(self).spec_placement(spec_effective_align(align as int))
                    &&& base >= 1
                    &&& base as int % spec_effective_align(align as int) == 0
                    &&& forall|a: int| base <= a < base + size ==> !old(self)@.dom().contains(a)
                    &&& final(self)@ == old(self)@.union_prefer_right(
                        block(base as int, Seq::new(size as nat, |k: int| 0u8)),
                    )
                    &&& final(self).spec_frontier() == base + size
                },
                Err(e) => {
                    &&& final(self)@ == old(self)@
                    &&& final(self).spec_frontier() == old(self).spec_frontier()
                    &&& e == spec_allocation_error(size, align)
                },
            },
    {
        if !self.can_place(size, align) {
            return self.allocate_from(size, align, None);
        }
        let data = zeroed(size);
        self.allocate_from(size, align, data)
    }

    /// Maps `bytes` as a block at `base`, where the block lies above the
    /// frontier and below the end of the address space and is not empty;
    /// otherwise nothing changes.
    pub fn map_region(&mut self, base: usize, bytes: Vec<u8>) -> (ok: bool)
        requires
            old(self).wf(),
        ensures
            final(self).wf(),
            final(self).spec_next_id() == old(self).spec_next_id(),
            ok == (bytes@.len() >= 1 && base > old(self).spec_frontier() && base + bytes@.len()
                <= usize::MAX),
            ok ==> final(self)@ == old(self)@.union_prefer_right(block(base as int, bytes@))
                && final(self).spec_frontier() == base + bytes@.len(),
            !ok ==> final(self)@ == old(self)@ && final(self).spec_frontier() == old(self).spec_frontier(),
    {
        let len = bytes.len();
        if len == 0 || base <= self.frontier {
            return false;
        }
        let end = match base.checked_add(len) {
            Some(e) => e,
            None => {
                return false;
            },
        };
        let region = Region { base, data: bytes };
        proof {
            assert(regions_apart(self.regions@, base - 1)) by {
                assert forall|i: int| 0 <= i < self.regions@.len() implies 1 <= (
                #[trigger] self.regions@[i]).base && self.regions@[i].base
                    + self.regions@[i].data@.len() <= base - 1 && self.regions@[i].data@.len()
                    >= 1 by {
                    assert(self.regions@[i].base + self.regions@[i].data@.len()
                        <= self.frontier);
                }
            }
            lemma_view_push(self.regions@, region, end as int);
        }
        self.regions.push(region);
        self.frontier = end;
        true
    }

    /// Unmaps the block of `size` bytes at `base`, where there is such a
    /// block; otherwise nothing changes.
    pub fn free(&mut self, base: usize, size: usize) -> (ok: bool)
        requires
            old(self).wf(),
        ensures
            final(self).wf(),
            final(self).spec_next_id() == old(self).spec_next_id(),
            final(self).spec_frontier() == old(self).spec_frontier(),
            ok == old(self).spec_is_block(base as int, size as int),
            ok ==> final(self)@ == old(self)@.remove_keys(range(base as int, size as int)),
            !ok ==> final(self)@ == old(self)@,
    {
        let mut i: usize = 0;
        while i < self.regions.len()
            invariant
                *self == *old(self),
                self.wf(),
                i <= self.regions@.len(),
                forall|j: int|
                    0 <= j < i ==> !((#[trigger] self.regions@[j]).base == base
                        && self.regions@[j].data@.len() == size),
            decreases self.regions@.len() - i,
        {
            if self.regions[i].base == base && self.regions[i].data.len() == size {
                proof {
                    let rs = self.regions@;
                    let fr = self.frontier as int;
                    lemma_view_remove(rs, i as int, fr);
                    assert(rs[i as int].data@.len() >= 1);
                    assert forall|a: int| base <= a < base + size implies self@.dom().contains(
                        a,
                    ) by {
                        lemma_region_view(rs, fr, i as int, a);
                    }
                    if self@.dom().contains(base - 1) {
                        let j = region_of(rs, base - 1);
                        assert(rs[j].contains(base - 1));
                        if j < i {
                            assert(rs[j].base + rs[j].data@.len() < rs[i as int].base);
                        } else if i < j {
                            assert(rs[i as int].base + rs[i as int].data@.len() < rs[j].base);
                        }
                    }
                    if self@.dom().contains(base + size) {
                        let j = region_of(rs, base + size);
                        assert(rs[j].contains(base + size));
                        if j < i {
                            assert(rs[j].base + rs[j].data@.len() < rs[i as int].base);
                        } else if i < j {
                            assert(rs[i as int].base + rs[i as int].data@.len() < rs[j].base);
                        }
                    }
                }
                let _ = self.regions.remove(i);
                return true;
            }
            i = i + 1;
        }
        proof {
            if self.spec_is_block(base as int, size as int) {
                let rs = self.regions@;
                let fr = self.frontier as int;
                assert(self@.dom().contains(base as int));
                let j = region_of(rs, base as int);
                assert(rs[j].contains(base as int));
                lemma_region_holds(rs, fr, j, base as int, size as int);
                if rs[j].base < base {
                    lemma_region_view(rs, fr, j, base - 1);
                }
                if base + size < rs[j].base + rs[j].data@.len() {
                    lemma_region_view(rs, fr, j, base + size);
                }
                assert(false);
            }
        }
        false
    }

    /// The bytes from `addr` up to the first zero byte, where such a byte
    /// is reached before the mapped memory ends.
    pub fn c_string_at(&self, addr: usize) -> (r: Option<Vec<u8>>)
        requires
            self.wf(),
        ensures
            match r {
                Some(v) => self.spec_terminated(addr as int, v@.len() as int) && v@
                    == self.spec_bytes(addr as int, v@.len() as int),
                None => forall|n: int| !self.spec_terminated(addr as int, n),
            },
            r matches Some(v) ==> Some(v@) == self.spec_c_string(addr as int),
            r is None ==> self.spec_c_string(addr as int) is None,
    {
        match self.find(addr, 1) {
            None => {
                proof {
                    assert forall|n: int| !self.spec_terminated(addr as int, n) by {
                        if self.spec_terminated(addr as int, n) {
                            assert(self@.dom().contains(addr as int));
                        }
                    }
                }
                None
            },
            Some(i) => {
                let off = addr - self.regions[i].base;
                let size = self.regions[i].data.len();
                let mut out: Vec<u8> = Vec::new();
                let mut k: usize = off;
                while k < size
                    invariant
                        self.wf(),
                        i < self.regions@.len(),
                        off == addr - self.regions@[i as int].base,
                        size == self.regions@[i as int].data@.len(),
                        self.regions@[i as int].base <= addr,
                        off <= k <= size,
                        out@.len() == k - off,
                        forall|p: int| 0 <= p < k - off ==> out@[p] == self@[addr + p] && out@[p] != 0,
                    decreases size - k,
                {
                    proof {
                        lemma_region_view(
                            self.regions@,
                            self.frontier as int,
                            i as int,
                            addr + (k - off),
                        );
                    }
                    let b = self.regions[i].data[k];
                    if b == 0 {
                        proof {
                            let n = (k - off) as int;
                            assert forall|a: int| addr <= a < addr + n + 1 implies self@.dom().contains(
                            a) by {
                                lemma_region_view(
                                    self.regions@,
                                    self.frontier as int,
                                    i as int,
                                    a,
                                );
                            }
                            assert forall|a: int| addr <= a < addr + n implies #[trigger] self@[a]
                                != 0 by {
                                assert(out@[a - addr] != 0);
                            }
                            assert(self.spec_terminated(addr as int, n));
                            assert(out@ =~= self.spec_bytes(addr as int, n));
                            self.lemma_terminator_unique(addr as int, n);
                        }
                        return Some(out);
                    }
                    out.push(b);
                    k = k + 1;
                }
                proof {
                    assert forall|n: int| !self.spec_terminated(addr as int, n) by {
                        if self.spec_terminated(addr as int, n) {
                            lemma_region_holds(
                                self.regions@,
                                self.frontier as int,
                                i as int,
                                addr as int,
                                n + 1,
                            );
                            assert(out@[n] != 0);
                        }
                    }
                }
                None
            },
        }
    }

    /// A string has one terminator: the first zero byte.
    pub proof fn lemma_terminator_unique(&self, addr: int, n: int)
        requires
            self.spec_terminated(addr, n),
        ensures
            forall|m: int| self.spec_terminated(addr, m) ==> m == n,
            self.spec_c_string(addr) == Some(self.spec_bytes(addr, n)),
    {
        assert forall|m: int| self.spec_terminated(addr, m) implies m == n by {
            if m < n {
                assert(self@[addr + m] != 0);
            } else if n < m {
                assert(self@[addr + n] != 0);
            }
        }
        let c = choose|m: int| self.spec_terminated(addr, m);
        assert(self.spec_terminated(addr, c));
    }
}

/// Why an allocation failed: its size is 0, its alignment is no power of
/// two, or there is no memory or no room for it.
pub open spec fn spec_allocation_error(size: usize, align: usize) -> FfiError {
    if size == 0 {
        FfiError::InvalidSize
    } else if !spec_is_power_of_two(spec_effective_align(align as int)) {
        FfiError::InvalidAlignment
    } else {
        FfiError::OutOfMemory
    }
}

/// `size` zero bytes. No bytes need no room; for any other size the allocator
/// of the process is asked for it, and `None` says that it had none left.
pub fn zeroed(size: usize) -> (r: Option<Vec<u8>>)
    ensures
        size == 0 ==> r is Some,
        r matches Some(v) ==> v@ == Seq::new(size as nat, |k: int| 0u8),
{
    let mut data: Vec<u8> = Vec::new();
    let reserved = if size == 0 {
        true
    } else {
        data.try_reserve(size).is_ok()
    };
    zero_filled(data, reserved, size)
}

/// What a request for `size` zero bytes gives once the allocator has
/// answered: the bytes, written into `data`, where room was `reserved`, and
/// `None` where it was not. What `data` held before is dropped.
pub fn zero_filled(data: Vec<u8>, reserved: bool, size: usize) -> (r: Option<Vec<u8>>)
    ensures
        r is Some == reserved,
        r matches Some(v) ==> v@ == Seq::new(size as nat, |k: int| 0u8),
{
    if !reserved {
        return None;
    }
    let mut data = data;
    data.clear();
    let mut k: usize = 0;
    while k < size
        invariant
            k <= size,
            data@.len() == k,
            forall|p: int| 0 <= p < k ==> data@[p] == 0u8,
        decreases size - k,
    {
        data.push(0u8);
        k = k + 1;
    }
    assert(data@ =~= Seq::new(size as nat, |k: int| 0u8));
    Some(data)
}

/// The alignment that an allocation is placed on: the requested one, and 1
/// where 0 was requested.
pub open spec fn spec_effective_align(align: int) -> int {
    if align == 0 {
        1
    } else {
        align
    }
}

/// Takes the next arena identifier. Identifiers are never 0 and go up by one
/// with each call, starting over at 1 after the largest.
pub fn next_arena_id(mem: &mut Memory) -> (id: usize)
    requires
        old(mem).wf(),
    ensures
        final(mem).wf(),
        id == old(mem).spec_next_id(),
        id >= 1,
        final(mem).spec_next_id() == if id == usize::MAX {
            1
        } else {
            id + 1
        },
        final(mem)@ == old(mem)@,
        final(mem).spec_frontier() == old(mem).spec_frontier(),
{
    let id = mem.next_id;
    mem.next_id = if id == usize::MAX {
        1
    } else {
        id + 1
    };
    id
}

} // verus!
