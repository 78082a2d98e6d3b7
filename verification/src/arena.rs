//! Arenas: allocations that live and die together. An arena hands out
//! blocks of memory one by one and gives all of them back at once when it
//! is reset.

use vstd::prelude::*;
use crate::errors::FfiError;
use crate::memory::{
    block, map_is_block, next_arena_id, range, spec_effective_align, Memory,
};
use crate::align::spec_is_power_of_two;
use crate::pointer::RawPointer;
use crate::types::CType;

verus! {

/// One allocation of an arena.
pub struct Chunk {
    addr: usize,
    size: usize,
    align: usize,
}

/// One allocation of an arena, as contracts speak of it.
pub struct ChunkModel {
    pub addr: int,
    pub size: int,
    pub align: int,
}

impl View for Chunk {
    type V = ChunkModel;

    closed spec fn view(&self) -> ChunkModel {
        ChunkModel { addr: self.addr as int, size: self.size as int, align: self.align as int }
    }
}

/// The identifier of an arena. It is never 0: in a pointer, 0 says that the
/// memory belongs to no arena.
struct ArenaId {
    value: usize,
}

impl ArenaId {
    #[verifier::type_invariant]
    spec fn inv(self) -> bool {
        self.value != 0
    }

    closed spec fn spec_value(&self) -> usize {
        self.value
    }

    fn new(value: usize) -> (r: Self)
        requires
            value != 0,
        ensures
            r.spec_value() == value,
    {
        ArenaId { value }
    }

    fn value(&self) -> (r: usize)
        ensures
            r == self.spec_value(),
            r != 0,
    {
        proof {
            use_type_invariant(self);
        }
        self.value
    }
}

/// An arena: its identifier, its allocations in the order they were made,
/// and the bytes that were asked for in total.
pub struct Arena {
    id: ArenaId,
    chunks: Vec<Chunk>,
    total_allocated: usize,
}

/// The alignment of an allocation that names none.
pub const DEFAULT_ALIGNMENT: usize = 8;

/// The mapping that is left of `m` when the chunks are given back one by
/// one, first to last: each chunk that is a whole block of the mapping at
/// its turn is unmapped, and any other is passed over.
pub open spec fn spec_release(m: Map<int, u8>, chunks: Seq<ChunkModel>) -> Map<int, u8>
    decreases chunks.len(),
{
    if chunks.len() == 0 {
        m
    } else {
        let c = chunks[0];
        let rest = chunks.subrange(1, chunks.len() as int);
        if map_is_block(m, c.addr, c.size) {
            spec_release(m.remove_keys(range(c.addr, c.size)), rest)
        } else {
            spec_release(m, rest)
        }
    }
}

impl Arena {
    /// The identifier of the arena: the one that its pointers carry.
    pub closed spec fn spec_id(&self) -> usize {
        self.id.spec_value()
    }

    /// The allocations, oldest first.
    pub closed spec fn spec_chunks(&self) -> Seq<ChunkModel> {
        Seq::new(self.chunks@.len(), |i: int| self.chunks@[i]@)
    }

    pub closed spec fn spec_total(&self) -> usize {
        self.total_allocated
    }

    /// A new arena without allocations, under the next free identifier.
    pub fn new(mem: &mut Memory) -> (r: Arena)
        requires
            old(mem).wf(),
        ensures
            final(mem).wf(),
            final(mem)@ == old(mem)@,
            final(mem).spec_frontier() == old(mem).spec_frontier(),
            r.spec_id() == old(mem).spec_next_id(),
            r.spec_id() != 0,
            final(mem).spec_next_id() != r.spec_id(),
            final(mem).spec_next_id() == if r.spec_id() == usize::MAX {
                1
            } else {
                r.spec_id() + 1
            },
            r.spec_chunks() == Seq::<ChunkModel>::empty(),
            r.spec_total() == 0,
    {
        let id = next_arena_id(mem);
        let r = Arena { id: ArenaId::new(id), chunks: Vec::new(), total_allocated: 0 };
        assert(r.spec_chunks() =~= Seq::<ChunkModel>::empty());
        r
    }

    /// Allocates `size` zero bytes on a multiple of 8.
    pub fn alloc_bytes(&mut self, mem: &mut Memory, size: usize) -> (r: Result<RawPointer, FfiError>)
        requires
            old(mem).wf(),
        ensures
            final(mem).wf(),
            final(mem).spec_next_id() == old(mem).spec_next_id(),
            spec_allocated(old(self), final(self), old(mem), final(mem), size, 8, r),
            r matches Ok(p) ==> p.arena_id != 0,
    {
        self.alloc_aligned(mem, size, DEFAULT_ALIGNMENT)
    }

    /// Allocates `size` zero bytes on a multiple of `align` (taken as 1
    /// where it is 0). The pointer that comes back is bound to this arena
    /// and knows its size. A failed allocation changes neither the arena nor
    /// the memory.
    pub fn alloc_aligned(&mut self, mem: &mut Memory, size: usize, align: usize) -> (r: Result<
        RawPointer,
        FfiError,
    >)
        requires
            old(mem).wf(),
        ensures
            final(mem).wf(),
            final(mem).spec_next_id() == old(mem).spec_next_id(),
            spec_allocated(old(self), final(self), old(mem), final(mem), size, align, r),
            r matches Ok(p) ==> p.arena_id != 0,
    {
        if size == 0 {
            return Err(FfiError::InvalidSize);
        }
        if !crate::align::is_power_of_two(
            if align == 0 {
                1
            } else {
                align
            },
        ) {
            return Err(FfiError::InvalidAlignment);
        }
        let total = match self.total_allocated.checked_add(size) {
            Some(t) => t,
            None => {
                return Err(FfiError::OutOfMemory);
            },
        };
        match mem.allocate(size, align) {
            Err(e) => Err(e),
            Ok(addr) => {
                self.chunks.push(Chunk { addr, size, align });
                self.total_allocated = total;
                assert(self.spec_chunks() =~= old(self).spec_chunks().push(
                    ChunkModel { addr: addr as int, size: size as int, align: align as int },
                ));
                Ok(RawPointer::managed(addr, self.id.value(), size))
            },
        }
    }

    /// Takes a chunk that the host has allocated itself into the arena:
    /// `size` bytes at `addr`, on `align`. The pointer that comes back is
    /// bound to this arena and knows its size.
    ///
    /// A size of 0 is invalid, and so is an alignment (taken as 1 where it
    /// is 0) that is no power of two. A null address means that the
    /// allocation failed, and so does a byte total beyond `usize`: both are out
    /// of memory. A failure changes nothing.
    pub fn adopt(&mut self, addr: usize, size: usize, align: usize) -> (r: Result<
        RawPointer,
        FfiError,
    >)
        ensures
            final(self).spec_id() == old(self).spec_id(),
            match r {
                Ok(p) => {
                    &&& size >= 1
                    &&& spec_is_power_of_two(spec_effective_align(align as int))
                    &&& addr != 0
                    &&& p == (RawPointer { addr, arena_id: old(self).spec_id(), size_hint: size })
                    &&& p.arena_id != 0
                    &&& final(self).spec_total() == old(self).spec_total() + size
                    &&& final(self).spec_chunks() == old(self).spec_chunks().push(
                        ChunkModel { addr: addr as int, size: size as int, align: align as int },
                    )
                },
                Err(e) => {
                    &&& *final(self) == *old(self)
                    &&& e == if size == 0 {
                        FfiError::InvalidSize
                    } else if !spec_is_power_of_two(spec_effective_align(align as int)) {
                        FfiError::InvalidAlignment
                    } else {
                        FfiError::OutOfMemory
                    }
                    &&& size == 0 || !spec_is_power_of_two(spec_effective_align(align as int))
                        || addr == 0 || old(self).spec_total() + size > usize::MAX
                },
            },
    {
        if size == 0 {
            return Err(FfiError::InvalidSize);
        }
        if !crate::align::is_power_of_two(
            if align == 0 {
                1
            } else {
                align
            },
        ) {
            return Err(FfiError::InvalidAlignment);
        }
        if addr == 0 {
            return Err(FfiError::OutOfMemory);
        }
        let total = match self.total_allocated.checked_add(size) {
            Some(t) => t,
            None => {
                return Err(FfiError::OutOfMemory);
            },
        };
        self.chunks.push(Chunk { addr, size, align });
        self.total_allocated = total;
        assert(self.spec_chunks() =~= old(self).spec_chunks().push(
            ChunkModel { addr: addr as int, size: size as int, align: align as int },
        ));
        Ok(RawPointer::managed(addr, self.id.value(), size))
    }

    /// Empties the arena and hands its chunks to the host, oldest first, for
    /// the host to free: of each its address, its size and its alignment.
    pub fn take_chunks(&mut self) -> (r: Vec<(usize, usize, usize)>)
        ensures
            final(self).spec_id() == old(self).spec_id(),
            final(self).spec_chunks() == Seq::<ChunkModel>::empty(),
            final(self).spec_total() == 0,
            r@.len() == old(self).spec_chunks().len(),
            forall|i: int|
                0 <= i < r@.len() ==> (#[trigger] r@[i]).0 == old(self).spec_chunks()[i].addr
                    && r@[i].1 == old(self).spec_chunks()[i].size && r@[i].2 == old(self).spec_chunks()[i].align,
    {
        let mut out: Vec<(usize, usize, usize)> = Vec::new();
        let n = self.chunks.len();
        let mut i: usize = 0;
        while i < n
            invariant
                *self == *old(self),
                n == self.chunks@.len(),
                i <= n,
                out@.len() == i,
                forall|k: int|
                    0 <= k < i ==> (#[trigger] out@[k]).0 == self.chunks@[k].addr && out@[k].1
                        == self.chunks@[k].size && out@[k].2 == self.chunks@[k].align,
            decreases n - i,
        {
            out.push((self.chunks[i].addr, self.chunks[i].size, self.chunks[i].align));
            i = i + 1;
        }
        self.chunks.clear();
        self.total_allocated = 0;
        assert(self.spec_chunks() =~= Seq::<ChunkModel>::empty());
        out
    }

    /// Allocates room for one value of type `ctype`, on its alignment.
    pub fn alloc_type(&mut self, mem: &mut Memory, ctype: CType) -> (r: Result<
        RawPointer,
        FfiError,
    >)
        requires
            old(mem).wf(),
        ensures
            final(mem).wf(),
            final(mem).spec_next_id() == old(mem).spec_next_id(),
            spec_allocated(
                old(self),
                final(self),
                old(mem),
                final(mem),
                ctype.spec_size() as usize,
                ctype.spec_alignment() as usize,
                r,
            ),
            r matches Ok(p) ==> p.arena_id != 0,
            ctype == CType::Void ==> r == Err::<RawPointer, FfiError>(FfiError::InvalidSize),
    {
        self.alloc_aligned(mem, ctype.size(), ctype.alignment())
    }

    /// Allocates room for `count` values of type `ctype` in a row, on the
    /// alignment of the type. No elements, or elements without size, are an
    /// invalid size; more bytes than `usize` counts cannot be had.
    pub fn alloc_array(&mut self, mem: &mut Memory, ctype: CType, count: usize) -> (r: Result<
        RawPointer,
        FfiError,
    >)
        requires
            old(mem).wf(),
        ensures
            final(mem).wf(),
            final(mem).spec_next_id() == old(mem).spec_next_id(),
            if count == 0 {
                r == Err::<RawPointer, FfiError>(FfiError::InvalidSize) && *final(self) == *old(self) && final(mem)@ == old(mem)@
            } else if ctype.spec_size() * count > usize::MAX {
                r == Err::<RawPointer, FfiError>(FfiError::OutOfMemory) && *final(self) == *old(self) && final(mem)@ == old(mem)@
            } else {
                spec_allocated(
                    old(self),
                    final(self),
                    old(mem),
                    final(mem),
                    (ctype.spec_size() * count) as usize,
                    ctype.spec_alignment() as usize,
                    r,
                )
            },
            r matches Ok(p) ==> p.arena_id != 0,
    {
        if count == 0 {
            return Err(FfiError::InvalidSize);
        }
        match ctype.size().checked_mul(count) {
            None => Err(FfiError::OutOfMemory),
            Some(size) => self.alloc_aligned(mem, size, ctype.alignment()),
        }
    }

    /// The identifier of the arena. It is never 0, so a pointer that carries
    /// it is managed.
    pub fn id(&self) -> (r: usize)
        ensures
            r == self.spec_id(),
            r != 0,
    {
        self.id.value()
    }

    /// The bytes asked for since the arena was made or last reset.
    pub fn total_allocated(&self) -> (r: usize)
        ensures
            r == self.spec_total(),
    {
        self.total_allocated
    }

    /// The allocations made since the arena was made or last reset.
    pub fn allocation_count(&self) -> (r: usize)
        ensures
            r == self.spec_chunks().len(),
    {
        self.chunks.len()
    }

    /// Gives every allocation back and starts over with none. Pointers
    /// handed out before no longer lead to mapped memory.
    pub fn reset(&mut self, mem: &mut Memory)
        requires
            old(mem).wf(),
        ensures
            final(mem).wf(),
            final(mem).spec_next_id() == old(mem).spec_next_id(),
            final(mem).spec_frontier() == old(mem).spec_frontier(),
            final(self).spec_id() == old(self).spec_id(),
            final(self).spec_chunks() == Seq::<ChunkModel>::empty(),
            final(self).spec_total() == 0,
            final(mem)@ == spec_release(old(mem)@, old(self).spec_chunks()),
    {
        let n = self.chunks.len();
        let mut i: usize = 0;
        assert(self.spec_chunks().subrange(0, n as int) =~= self.spec_chunks());
        while i < n
            invariant
                mem.wf(),
                mem.spec_next_id() == old(mem).spec_next_id(),
                mem.spec_frontier() == old(mem).spec_frontier(),
                *self == *old(self),
                n == self.chunks@.len(),
                i <= n,
                spec_release(old(mem)@, old(self).spec_chunks()) == spec_release(
                    mem@,
                    old(self).spec_chunks().subrange(i as int, n as int),
                ),
            decreases n - i,
        {
            let ghost rest = self.spec_chunks().subrange(i as int, n as int);
            proof {
                assert(rest[0] == self.chunks@[i as int]@);
                assert(rest.subrange(1, rest.len() as int) =~= self.spec_chunks().subrange(
                    i + 1,
                    n as int,
                ));
            }
            let _ = mem.free(self.chunks[i].addr, self.chunks[i].size);
            i = i + 1;
        }
        proof {
            assert(old(self).spec_chunks().subrange(n as int, n as int).len() == 0);
        }
        self.chunks.clear();
        self.total_allocated = 0;
        assert(self.spec_chunks() =~= Seq::<ChunkModel>::empty());
    }
}

/// What an allocation of `size` bytes on `align` does to an arena and to
/// memory, with its result `r`.
///
/// A size of 0 is invalid, and so is an alignment that is no power of two.
/// Where the byte total would leave `usize`, the block has no room below the
/// end of the address space, or the allocator of the process has no memory
/// left, the arena is out of memory. A failure changes nothing. Otherwise the
/// arena has one more chunk and `size` more bytes, and the pointer leads to
/// `size` fresh zero bytes.
pub open spec fn spec_allocated(
    before: &Arena,
    after: &Arena,
    mem_before: &Memory,
    mem_after: &Memory,
    size: usize,
    align: usize,
    r: Result<RawPointer, FfiError>,
) -> bool {
    let a = spec_effective_align(align as int);
    let at = mem_before.spec_placement(a);
    if size == 0 {
        r == Err::<RawPointer, FfiError>(FfiError::InvalidSize) && *after == *before
            && mem_after@ == mem_before@
    } else if !spec_is_power_of_two(a) {
        r == Err::<RawPointer, FfiError>(FfiError::InvalidAlignment) && *after == *before
            && mem_after@ == mem_before@
    } else if before.spec_total() + size > usize::MAX || at + size > usize::MAX || r is Err {
        r == Err::<RawPointer, FfiError>(FfiError::OutOfMemory) && *after == *before
            && mem_after@ == mem_before@
    } else {
        &&& r == Ok::<RawPointer, FfiError>(
            RawPointer { addr: at as usize, arena_id: before.spec_id(), size_hint: size },
        )
        &&& at >= 1
        &&& at % a == 0
        &&& after.spec_id() == before.spec_id()
        &&& after.spec_total() == before.spec_total() + size
        &&& after.spec_chunks() == before.spec_chunks().push(
            ChunkModel { addr: at, size: size as int, align: align as int },
        )
        &&& forall|x: int| at <= x < at + size ==> !mem_before@.dom().contains(x)
        &&& mem_after@ == mem_before@.union_prefer_right(
            block(at, Seq::new(size as nat, |k: int| 0u8)),
        )
    }
}

/// Between two resets an arena only grows: an allocation, failed or not,
/// lowers neither the number of chunks nor the byte total.
pub proof fn lemma_arena_monotone(
    before: &Arena,
    after: &Arena,
    mem_before: &Memory,
    mem_after: &Memory,
    size: usize,
    align: usize,
    r: Result<RawPointer, FfiError>,
)
    requires
        spec_allocated(before, after, mem_before, mem_after, size, align, r),
    ensures
        after.spec_chunks().len() >= before.spec_chunks().len(),
        after.spec_total() >= before.spec_total(),
        r is Ok ==> after.spec_chunks().len() == before.spec_chunks().len() + 1,
        r is Err ==> after.spec_chunks() == before.spec_chunks() && after.spec_total()
            == before.spec_total(),
{
}

/// An allocation moves nothing: whatever was mapped before it stays mapped
/// and holds the byte it held, so every pointer handed out before stays valid.
pub proof fn lemma_allocation_keeps(
    before: &Arena,
    after: &Arena,
    mem_before: &Memory,
    mem_after: &Memory,
    size: usize,
    align: usize,
    r: Result<RawPointer, FfiError>,
    addr: int,
)
    requires
        spec_allocated(before, after, mem_before, mem_after, size, align, r),
        mem_before@.dom().contains(addr),
    ensures
        mem_after@.dom().contains(addr),
        mem_after@[addr] == mem_before@[addr],
{
}

/// Whether the chunks are whole blocks of the mapping `m` that lie apart
/// from each other, as the allocations of an arena do.
pub open spec fn spec_separate_blocks(m: Map<int, u8>, chunks: Seq<ChunkModel>) -> bool {
    &&& forall|i: int|
        0 <= i < chunks.len() ==> map_is_block(m, (#[trigger] chunks[i]).addr, chunks[i].size)
    &&& forall|i: int, j: int|
        0 <= i < j < chunks.len() ==> (#[trigger] chunks[i]).addr + chunks[i].size <= (
        #[trigger] chunks[j]).addr || chunks[j].addr + chunks[j].size <= chunks[i].addr
}

/// Whether `addr` lies in one of the chunks.
pub open spec fn spec_in_chunks(chunks: Seq<ChunkModel>, addr: int) -> bool {
    exists|i: int|
        0 <= i < chunks.len() && (#[trigger] chunks[i]).addr <= addr < chunks[i].addr
            + chunks[i].size
}

/// Giving chunks back only ever unmaps: what stays mapped was mapped before
/// and holds the byte it held, and every address outside the chunks stays as
/// it was.
pub proof fn lemma_release_keeps(m: Map<int, u8>, chunks: Seq<ChunkModel>, addr: int)
    ensures
        spec_release(m, chunks).dom().contains(addr) ==> m.dom().contains(addr) && spec_release(
            m,
            chunks,
        )[addr] == m[addr],
        m.dom().contains(addr) && !spec_in_chunks(chunks, addr) ==> spec_release(
            m,
            chunks,
        ).dom().contains(addr),
    decreases chunks.len(),
{
    if chunks.len() > 0 {
        let c = chunks[0];
        let rest = chunks.subrange(1, chunks.len() as int);
        let m1 = if map_is_block(m, c.addr, c.size) {
            m.remove_keys(range(c.addr, c.size))
        } else {
            m
        };
        lemma_release_keeps(m1, rest, addr);
        if m.dom().contains(addr) && !spec_in_chunks(chunks, addr) {
            assert(!(c.addr <= addr < c.addr + c.size));
            if spec_in_chunks(rest, addr) {
                let i = choose|i: int|
                    0 <= i < rest.len() && (#[trigger] rest[i]).addr <= addr < rest[i].addr
                        + rest[i].size;
                assert(chunks[i + 1] == rest[i]);
            }
        }
    }
}

/// A reset ends every allocation: where the chunks are whole blocks that
/// lie apart, none of their addresses is mapped once they are given back.
pub proof fn lemma_release_unmaps(m: Map<int, u8>, chunks: Seq<ChunkModel>, addr: int)
    requires
        spec_separate_blocks(m, chunks),
        spec_in_chunks(chunks, addr),
    ensures
        !spec_release(m, chunks).dom().contains(addr),
    decreases chunks.len(),
{
    let c = chunks[0];
    let rest = chunks.subrange(1, chunks.len() as int);
    assert(map_is_block(m, c.addr, c.size));
    let m1 = m.remove_keys(range(c.addr, c.size));
    if c.addr <= addr < c.addr + c.size {
        lemma_release_keeps(m1, rest, addr);
    } else {
        let i = choose|i: int|
            0 <= i < chunks.len() && (#[trigger] chunks[i]).addr <= addr < chunks[i].addr
                + chunks[i].size;
        assert(rest[i - 1] == chunks[i]);
        assert(spec_separate_blocks(m1, rest)) by {
            assert forall|j: int| 0 <= j < rest.len() implies map_is_block(
                m1,
                (#[trigger] rest[j]).addr,
                rest[j].size,
            ) by {
                assert(rest[j] == chunks[j + 1]);
                assert(map_is_block(m, chunks[j + 1].addr, chunks[j + 1].size));
                assert(chunks[0].addr + chunks[0].size <= chunks[j + 1].addr || chunks[j
                    + 1].addr + chunks[j + 1].size <= chunks[0].addr);
            }
            assert forall|j: int, k: int| 0 <= j < k < rest.len() implies (
            #[trigger] rest[j]).addr + rest[j].size <= (#[trigger] rest[k]).addr || rest[k].addr
                + rest[k].size <= rest[j].addr by {
                assert(rest[j] == chunks[j + 1]);
                assert(rest[k] == chunks[k + 1]);
            }
        }
        lemma_release_unmaps(m1, rest, addr);
    }
}

} // verus!
