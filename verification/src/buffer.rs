//! Buffers: a run of bytes in memory with a fixed length, read and written
//! with bounds checks.

use vstd::prelude::*;
use crate::align::lemma_small_powers_of_two;
use crate::errors::FfiError;
use crate::memory::{block, range, Memory};
use crate::pointer::{read_value_at, spec_read_value, spec_write_value, write_value_at};
use crate::types::CType;
use crate::value::{HostValue, HostValueModel};

verus! {

/// A buffer: where its bytes are, how many there are, and whether it owns
/// them. An owned buffer has a block of memory to itself and gives it back
/// when it is freed; a borrowed one looks at bytes that belong elsewhere.
#[derive(Debug)]
pub struct Buffer {
    ptr: usize,
    size: usize,
    owned: bool,
}

/// The bytes that a buffer of `size` bytes has to itself: at least one.
pub open spec fn spec_footprint(size: usize) -> int {
    if size == 0 {
        1
    } else {
        size as int
    }
}

impl Buffer {
    pub closed spec fn spec_ptr(&self) -> usize {
        self.ptr
    }

    pub closed spec fn spec_size(&self) -> usize {
        self.size
    }

    pub closed spec fn spec_owned(&self) -> bool {
        self.owned
    }

    /// Where an access of `len` bytes at `offset` goes, or out of bounds
    /// where it would leave the buffer.
    pub open spec fn spec_access(&self, offset: usize, len: int) -> Result<usize, FfiError> {
        if offset + len > self.spec_size() || self.spec_ptr() + offset > usize::MAX {
            Err(FfiError::OutOfBounds)
        } else {
            Ok((self.spec_ptr() + offset) as usize)
        }
    }

    fn access(&self, offset: usize, len: usize) -> (r: Result<usize, FfiError>)
        ensures
            r == self.spec_access(offset, len as int),
    {
        match offset.checked_add(len) {
            None => Err(FfiError::OutOfBounds),
            Some(end) => {
                if end > self.size {
                    Err(FfiError::OutOfBounds)
                } else {
                    match self.ptr.checked_add(offset) {
                        None => Err(FfiError::OutOfBounds),
                        Some(at) => Ok(at),
                    }
                }
            },
        }
    }

    /// A new owned buffer of `size` zero bytes, on a multiple of 8. It can be
    /// had unless the address space has no room for it or the allocator of the
    /// process no memory: both are out of memory.
    pub fn new(mem: &mut Memory, size: usize) -> (r: Result<Buffer, FfiError>)
        requires
            old(mem).wf(),
        ensures
            final(mem).wf(),
            final(mem).spec_next_id() == old(mem).spec_next_id(),
            old(mem).spec_placement(8) + spec_footprint(size) > usize::MAX ==> r is Err,
            match r {
                Ok(b) => {
                    &&& old(mem).spec_placement(8) + spec_footprint(size) <= usize::MAX
                    &&& b.spec_size() == size
                    &&& b.spec_owned()
                    &&& b.spec_ptr() == old(mem).spec_placement(8)
                    &&& b.spec_ptr() != 0
                    &&& b.spec_ptr() as int % 8 == 0
                    &&& final(mem)@ == old(mem)@.union_prefer_right(
                        block(
                            b.spec_ptr() as int,
                            Seq::new(spec_footprint(size) as nat, |k: int| 0u8),
                        ),
                    )
                },
                Err(e) => e == FfiError::OutOfMemory && final(mem)@ == old(mem)@,
            },
    {
        proof {
            lemma_small_powers_of_two();
        }
        let footprint = if size == 0 {
            1
        } else {
            size
        };
        match mem.allocate(footprint, 8) {
            Ok(ptr) => Ok(Buffer { ptr, size, owned: true }),
            Err(e) => Err(e),
        }
    }

    /// An owned buffer over `size` bytes at `ptr` that the host has allocated
    /// for it.
    pub fn adopt(ptr: usize, size: usize) -> (r: Buffer)
        ensures
            r.spec_ptr() == ptr,
            r.spec_size() == size,
            r.spec_owned(),
    {
        Buffer { ptr, size, owned: true }
    }

    /// A borrowed buffer over the `size` bytes at `ptr`.
    pub fn from_ptr(ptr: usize, size: usize) -> (r: Buffer)
        ensures
            r.spec_ptr() == ptr,
            r.spec_size() == size,
            !r.spec_owned(),
    {
        Buffer { ptr, size, owned: false }
    }

    pub fn as_ptr(&self) -> (r: usize)
        ensures
            r == self.spec_ptr(),
    {
        self.ptr
    }

    pub fn size(&self) -> (r: usize)
        ensures
            r == self.spec_size(),
    {
        self.size
    }

    pub fn is_owned(&self) -> (r: bool)
        ensures
            r == self.spec_owned(),
    {
        self.owned
    }

    /// Reads a value of type `ctype` at `offset`.
    pub fn read(&self, mem: &Memory, offset: usize, ctype: CType) -> (r: Result<
        HostValue,
        FfiError,
    >)
        requires
            mem.wf(),
        ensures
            match self.spec_access(offset, ctype.spec_size() as int) {
                Err(e) => r == Err::<HostValue, FfiError>(e),
                Ok(at) => match r {
                    Ok(v) => spec_read_value(mem, at as int, ctype) == Ok::<
                        HostValueModel,
                        FfiError,
                    >(v@),
                    Err(e) => spec_read_value(mem, at as int, ctype) == Err::<
                        HostValueModel,
                        FfiError,
                    >(e),
                },
            },
    {
        match self.access(offset, ctype.size()) {
            Err(e) => Err(e),
            Ok(at) => read_value_at(mem, at, ctype),
        }
    }

    /// Writes `value` as a value of type `ctype` at `offset`.
    pub fn write(&self, mem: &mut Memory, offset: usize, ctype: CType, value: &HostValue) -> (r:
        Result<(), FfiError>)
        requires
            old(mem).wf(),
        ensures
            final(mem).wf(),
            final(mem).spec_frontier() == old(mem).spec_frontier(),
            final(mem).spec_next_id() == old(mem).spec_next_id(),
            match self.spec_access(offset, ctype.spec_size() as int) {
                Err(e) => r == Err::<(), FfiError>(e) && final(mem)@ == old(mem)@,
                Ok(at) => match r {
                    Ok(()) => spec_write_value(old(mem), at as int, ctype, value@) is Ok && final(mem)@ == old(mem)@.union_prefer_right(
                        block(
                            at as int,
                            spec_write_value(old(mem), at as int, ctype, value@)->Ok_0,
                        ),
                    ),
                    Err(e) => spec_write_value(old(mem), at as int, ctype, value@) == Err::<
                        Seq<u8>,
                        FfiError,
                    >(e) && final(mem)@ == old(mem)@,
                },
            },
    {
        match self.access(offset, ctype.size()) {
            Err(e) => Err(e),
            Ok(at) => write_value_at(mem, at, ctype, value),
        }
    }

    /// Sets every byte of the buffer to zero.
    pub fn zero(&self, mem: &mut Memory) -> (r: Result<(), FfiError>)
        requires
            old(mem).wf(),
        ensures
            final(mem).wf(),
            final(mem).spec_frontier() == old(mem).spec_frontier(),
            final(mem).spec_next_id() == old(mem).spec_next_id(),
            r.is_ok() == old(mem).spec_mapped(self.spec_ptr() as int, self.spec_size() as int),
            r is Ok ==> final(mem)@ == old(mem)@.union_prefer_right(
                block(self.spec_ptr() as int, Seq::new(self.spec_size() as nat, |k: int| 0u8)),
            ),
            r is Err ==> r == Err::<(), FfiError>(FfiError::OutOfBounds) && final(mem)@ == old(mem)@,
    {
        if mem.fill(self.ptr, self.size, 0) {
            Ok(())
        } else {
            Err(FfiError::OutOfBounds)
        }
    }

    /// Copies `bytes` into the buffer at `offset`.
    pub fn write_bytes(&self, mem: &mut Memory, offset: usize, bytes: &[u8]) -> (r: Result<
        (),
        FfiError,
    >)
        requires
            old(mem).wf(),
        ensures
            final(mem).wf(),
            final(mem).spec_frontier() == old(mem).spec_frontier(),
            final(mem).spec_next_id() == old(mem).spec_next_id(),
            r.is_ok() == (self.spec_access(offset, bytes@.len() as int) is Ok && old(mem).spec_mapped(self.spec_ptr() + offset, bytes@.len() as int)),
            r is Ok ==> final(mem)@ == old(mem)@.union_prefer_right(
                block(self.spec_ptr() + offset, bytes@),
            ),
            r is Err ==> r == Err::<(), FfiError>(FfiError::OutOfBounds) && final(mem)@ == old(mem)@,
    {
        match self.access(offset, bytes.len()) {
            Err(e) => Err(e),
            Ok(at) => {
                if mem.store(at, bytes) {
                    Ok(())
                } else {
                    Err(FfiError::OutOfBounds)
                }
            },
        }
    }

    /// The `len` bytes of the buffer from `offset` on.
    pub fn read_bytes(&self, mem: &Memory, offset: usize, len: usize) -> (r: Result<
        Vec<u8>,
        FfiError,
    >)
        requires
            mem.wf(),
        ensures
            r.is_ok() == (self.spec_access(offset, len as int) is Ok && mem.spec_mapped(
                self.spec_ptr() + offset,
                len as int,
            )),
            match r {
                Ok(v) => v@ == mem.spec_bytes(self.spec_ptr() + offset, len as int),
                Err(e) => e == FfiError::OutOfBounds,
            },
    {
        match self.access(offset, len) {
            Err(e) => Err(e),
            Ok(at) => match mem.load(at, len) {
                Some(v) => Ok(v),
                None => Err(FfiError::OutOfBounds),
            },
        }
    }

    /// A borrowed buffer over `size` bytes of this one from `offset` on. It
    /// looks at the same memory: what is written through either is read
    /// through both.
    pub fn slice(&self, offset: usize, size: usize) -> (r: Result<Buffer, FfiError>)
        ensures
            match self.spec_access(offset, size as int) {
                Err(e) => r is Err && r->Err_0 == e,
                Ok(at) => r is Ok && r->Ok_0.spec_ptr() == at && r->Ok_0.spec_size() == size
                    && !r->Ok_0.spec_owned(),
            },
    {
        match self.access(offset, size) {
            Err(e) => Err(e),
            Ok(at) => Ok(Buffer { ptr: at, size, owned: false }),
        }
    }

    /// Gives the memory of an owned buffer back. A borrowed buffer frees
    /// nothing.
    pub fn free(self, mem: &mut Memory) -> (ok: bool)
        requires
            old(mem).wf(),
        ensures
            final(mem).wf(),
            final(mem).spec_frontier() == old(mem).spec_frontier(),
            final(mem).spec_next_id() == old(mem).spec_next_id(),
            ok == (self.spec_owned() && old(mem).spec_is_block(
                self.spec_ptr() as int,
                spec_footprint(self.spec_size()),
            )),
            ok ==> final(mem)@ == old(mem)@.remove_keys(
                range(self.spec_ptr() as int, spec_footprint(self.spec_size())),
            ),
            !ok ==> final(mem)@ == old(mem)@,
    {
        if !self.owned {
            return false;
        }
        let footprint = if self.size == 0 {
            1
        } else {
            self.size
        };
        mem.free(self.ptr, footprint)
    }
}

/// The bytes of `bytes` before its first zero byte; all of them where there
/// is none.
pub open spec fn spec_until_zero(bytes: Seq<u8>) -> Seq<u8>
    decreases bytes.len(),
{
    if bytes.len() == 0 || bytes[0] == 0 {
        Seq::empty()
    } else {
        seq![bytes[0]] + spec_until_zero(bytes.drop_first())
    }
}

/// The first zero byte ends what `spec_until_zero` keeps: the kept bytes are
/// the beginning of the whole, hold no zero, and stop at a zero or at the
/// end.
pub proof fn lemma_until_zero(bytes: Seq<u8>)
    ensures
        spec_until_zero(bytes).len() <= bytes.len(),
        spec_until_zero(bytes) == bytes.subrange(0, spec_until_zero(bytes).len() as int),
        !spec_until_zero(bytes).contains(0u8),
        spec_until_zero(bytes).len() < bytes.len() ==> bytes[spec_until_zero(bytes).len() as int]
            == 0,
    decreases bytes.len(),
{
    if bytes.len() == 0 || bytes[0] == 0 {
        assert(spec_until_zero(bytes) =~= bytes.subrange(0, 0));
    } else {
        let rest = bytes.drop_first();
        lemma_until_zero(rest);
        let kept = spec_until_zero(rest);
        let all = seq![bytes[0]] + kept;
        assert(all =~= bytes.subrange(0, all.len() as int)) by {
            assert forall|i: int| 0 <= i < all.len() implies all[i] == bytes[i] by {
                if i > 0 {
                    assert(kept[i - 1] == rest.subrange(0, kept.len() as int)[i - 1]);
                }
            }
        }
        assert(!all.contains(0u8)) by {
            if all.contains(0u8) {
                let i = choose|i: int| 0 <= i < all.len() && all[i] == 0u8;
                assert(kept[i - 1] == 0u8);
                assert(kept.contains(0u8));
            }
        }
        if all.len() < bytes.len() {
            assert(bytes[all.len() as int] == rest[kept.len() as int]);
        }
    }
}

impl Buffer {
    /// The string at `offset`: the bytes from there up to the first zero
    /// byte, or up to the end of the buffer where there is none (see
    /// `lemma_until_zero`).
    pub fn read_string(&self, mem: &Memory, offset: usize) -> (r: Result<Vec<u8>, FfiError>)
        requires
            mem.wf(),
        ensures
            r.is_ok() == (self.spec_access(offset, 0) is Ok && mem.spec_mapped(
                self.spec_ptr() + offset,
                self.spec_size() - offset,
            )),
            match r {
                Ok(v) => v@ == spec_until_zero(
                    mem.spec_bytes(self.spec_ptr() + offset, self.spec_size() - offset),
                ),
                Err(e) => e == FfiError::OutOfBounds,
            },
    {
        if offset > self.size {
            return Err(FfiError::OutOfBounds);
        }
        let all = match self.read_bytes(mem, offset, self.size - offset) {
            Ok(all) => all,
            Err(e) => {
                return Err(e);
            },
        };
        let mut out: Vec<u8> = Vec::new();
        let mut i: usize = 0;
        proof {
            assert(all@.subrange(0, all@.len() as int) =~= all@);
        }
        while i < all.len() && all[i] != 0
            invariant
                i <= all@.len(),
                out@ == all@.subrange(0, i as int),
                spec_until_zero(all@) == out@ + spec_until_zero(
                    all@.subrange(i as int, all@.len() as int),
                ),
            decreases all@.len() - i,
        {
            let ghost rest = all@.subrange(i as int, all@.len() as int);
            proof {
                assert(rest.drop_first() =~= all@.subrange(i + 1, all@.len() as int));
                assert(out@.push(all@[i as int]) + spec_until_zero(rest.drop_first()) =~= out@ + (
                seq![rest[0]] + spec_until_zero(rest.drop_first())));
            }
            out.push(all[i]);
            assert(out@ =~= all@.subrange(0, i + 1));
            i = i + 1;
        }
        proof {
            let rest = all@.subrange(i as int, all@.len() as int);
            assert(spec_until_zero(rest) =~= Seq::<u8>::empty());
            assert(out@ + Seq::<u8>::empty() =~= out@);
        }
        Ok(out)
    }

    /// Copies `bytes` into the buffer at `offset`, with a zero byte after
    /// them where the buffer has room for it.
    pub fn write_string(&self, mem: &mut Memory, offset: usize, bytes: &[u8]) -> (r: Result<
        (),
        FfiError,
    >)
        requires
            old(mem).wf(),
        ensures
            final(mem).wf(),
            final(mem).spec_frontier() == old(mem).spec_frontier(),
            final(mem).spec_next_id() == old(mem).spec_next_id(),
            r.is_ok() == (self.spec_access(offset, bytes@.len() as int) is Ok && old(mem).spec_mapped(self.spec_ptr() + offset, bytes@.len() as int)),
            r is Err ==> r == Err::<(), FfiError>(FfiError::OutOfBounds) && final(mem)@ == old(mem)@,
            r is Ok ==> final(mem)@ == if offset + bytes@.len() < self.spec_size() && old(mem).spec_mapped(self.spec_ptr() + offset + bytes@.len(), 1) {
                old(mem)@.union_prefer_right(block(self.spec_ptr() + offset, bytes@.push(0u8)))
            } else {
                old(mem)@.union_prefer_right(block(self.spec_ptr() + offset, bytes@))
            },
    {
        let at = match self.access(offset, bytes.len()) {
            Ok(at) => at,
            Err(e) => {
                return Err(e);
            },
        };
        if !mem.store(at, bytes) {
            return Err(FfiError::OutOfBounds);
        }
        let ghost stored = mem@;
        if offset + bytes.len() < self.size {
            match at.checked_add(bytes.len()) {
                Some(end) => {
                    let mut zero: Vec<u8> = Vec::new();
                    zero.push(0);
                    let ok = mem.store(end, zero.as_slice());
                    proof {
                        if ok {
                            assert(mem@ =~= old(mem)@.union_prefer_right(
                                block(self.spec_ptr() + offset, bytes@.push(0u8)),
                            ));
                        }
                    }
                },
                None => {
                    proof {
                        let end = self.spec_ptr() + offset + bytes@.len();
                        if old(mem)@.dom().contains(end) {
                            old(mem).lemma_mapped_bounds(end);
                        }
                    }
                },
            }
        }
        Ok(())
    }
}

} // verus!
