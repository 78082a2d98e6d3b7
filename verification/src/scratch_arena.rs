//! A scratch arena: one buffer of fixed capacity that short-lived
//! allocations are carved from front to back, and that is handed back whole
//! by a reset.

use vstd::prelude::*;
use vstd::string::*;
use crate::align::{align_up, spec_align_up};
use crate::memory::spec_effective_align;

verus! {

/// The capacity of a scratch arena where none is asked for: 64 KiB.
pub const DEFAULT_SCRATCH_SIZE: usize = 65536;

/// A bump allocator over one buffer. An allocation is named by its
/// position in the buffer.
pub struct ScratchArena {
    buffer: Vec<u8>,
    offset: usize,
    high_water_mark: usize,
}

/// `bytes` with a zero byte after them, written over `buffer` at `at`.
pub open spec fn spec_with_cstring(buffer: Seq<u8>, at: int, bytes: Seq<u8>) -> Seq<u8> {
    Seq::new(
        buffer.len(),
        |i: int|
            if at <= i < at + bytes.len() {
                bytes[i - at]
            } else if i == at + bytes.len() {
                0u8
            } else {
                buffer[i]
            },
    )
}

/// `bytes` written over `buffer` at `at`.
pub open spec fn spec_with_bytes(buffer: Seq<u8>, at: int, bytes: Seq<u8>) -> Seq<u8> {
    Seq::new(
        buffer.len(),
        |i: int|
            if at <= i < at + bytes.len() {
                bytes[i - at]
            } else {
                buffer[i]
            },
    )
}

/// The UTF-16 code units of one character: the character itself below
/// 0x10000, and a pair of surrogates above.
pub open spec fn spec_utf16_units(c: char) -> Seq<u16> {
    let v = c as u32;
    if v < 0x10000 {
        seq![v as u16]
    } else {
        seq![(0xd800 + (v - 0x10000) / 0x400) as u16, (0xdc00 + (v - 0x10000) % 0x400) as u16]
    }
}

/// The UTF-16 code units of a string.
pub open spec fn spec_utf16(chars: Seq<char>) -> Seq<u16>
    decreases chars.len(),
{
    if chars.len() == 0 {
        Seq::empty()
    } else {
        spec_utf16(chars.drop_last()) + spec_utf16_units(chars.last())
    }
}

/// The bytes of a run of 16-bit units, the low byte of each first.
pub open spec fn spec_wide_bytes(units: Seq<u16>) -> Seq<u8> {
    Seq::new(
        2 * units.len(),
        |i: int|
            if i % 2 == 0 {
                (units[i / 2] % 256) as u8
            } else {
                (units[i / 2] / 256) as u8
            },
    )
}

/// The UTF-16 code units of a string.
pub fn utf16(s: &str) -> (r: Vec<u16>)
    ensures
        r@ == spec_utf16(s@),
{
    let n = s.unicode_len();
    let mut units: Vec<u16> = Vec::new();
    let mut i: usize = 0;
    assert(s@.subrange(0, 0) =~= Seq::<char>::empty());
    while i < n
        invariant
            n == s@.len(),
            i <= n,
            units@ == spec_utf16(s@.subrange(0, i as int)),
        decreases n - i,
    {
        let c = s.get_char(i);
        let v = c as u32;
        proof {
            let next = s@.subrange(0, i + 1);
            assert(next.drop_last() =~= s@.subrange(0, i as int));
            assert(next.last() == c);
        }
        let ghost before = units@;
        if v < 0x10000 {
            units.push(v as u16);
            assert(units@ =~= before + spec_utf16_units(c));
        } else {
            let w = v - 0x10000;
            units.push((0xd800 + w / 0x400) as u16);
            units.push((0xdc00 + w % 0x400) as u16);
            assert(units@ =~= before + spec_utf16_units(c));
        }
        i = i + 1;
    }
    assert(s@.subrange(0, n as int) =~= s@);
    units
}

impl ScratchArena {
    #[verifier::type_invariant]
    spec fn inv(self) -> bool {
        self.offset <= self.high_water_mark <= self.buffer@.len()
    }

    /// The bytes in use: where the next allocation starts, before alignment.
    pub closed spec fn spec_used(&self) -> usize {
        self.offset
    }

    pub closed spec fn spec_capacity(&self) -> usize {
        self.buffer.len()
    }

    pub closed spec fn spec_high_water_mark(&self) -> usize {
        self.high_water_mark
    }

    /// The content of the buffer.
    pub closed spec fn spec_bytes(&self) -> Seq<u8> {
        self.buffer@
    }

    /// Where an allocation on `align` would start.
    pub open spec fn spec_next(&self, align: usize) -> int {
        spec_align_up(self.spec_used() as int, spec_effective_align(align as int))
    }

    /// The buffer is as long as the capacity says, and what is in use lies
    /// within it.
    pub proof fn lemma_capacity(&self)
        ensures
            self.spec_bytes().len() == self.spec_capacity(),
    {
    }

    /// A new arena of `capacity` zero bytes, none in use.
    pub fn new(capacity: usize) -> (r: Self)
        ensures
            r.spec_capacity() == capacity,
            r.spec_used() == 0,
            r.spec_high_water_mark() == 0,
            r.spec_bytes() == Seq::new(capacity as nat, |i: int| 0u8),
    {
        let mut buffer: Vec<u8> = Vec::new();
        let mut k: usize = 0;
        while k < capacity
            invariant
                k <= capacity,
                buffer@.len() == k,
                forall|p: int| 0 <= p < k ==> buffer@[p] == 0u8,
            decreases capacity - k,
        {
            buffer.push(0u8);
            k = k + 1;
        }
        assert(buffer@ =~= Seq::new(capacity as nat, |i: int| 0u8));
        ScratchArena { buffer, offset: 0, high_water_mark: 0 }
    }

    /// Takes `size` bytes on a multiple of `align` (taken as 1 where it is
    /// 0) and gives their position, or `None` where they do not fit in what
    /// is left: the arena is exhausted, and nothing changes.
    pub fn alloc_bytes(&mut self, size: usize, align: usize) -> (r: Option<usize>)
        ensures
            r == if old(self).spec_next(align) + size <= old(self).spec_capacity() {
                Some(old(self).spec_next(align) as usize)
            } else {
                None
            },
            final(self).spec_capacity() == old(self).spec_capacity(),
            final(self).spec_bytes() == old(self).spec_bytes(),
            final(self).spec_used() == if r is Some {
                (old(self).spec_next(align) + size) as usize
            } else {
                old(self).spec_used()
            },
            final(self).spec_high_water_mark() == if final(self).spec_used() > old(self).spec_high_water_mark() {
                final(self).spec_used()
            } else {
                old(self).spec_high_water_mark()
            },
    {
        proof {
            use_type_invariant(&*self);
            crate::align::lemma_padding(
                self.offset as int,
                spec_effective_align(align as int),
            );
        }
        let a = if align == 0 {
            1
        } else {
            align
        };
        let at = match align_up(self.offset, a) {
            Some(at) => at,
            None => {
                return None;
            },
        };
        let end = match at.checked_add(size) {
            Some(end) => end,
            None => {
                return None;
            },
        };
        if end > self.buffer.len() {
            return None;
        }
        if end > self.high_water_mark {
            self.high_water_mark = end;
        }
        self.offset = end;
        Some(at)
    }

    /// Copies `bytes` into the arena with a zero byte after them and gives
    /// the position of the copy, or `None` where the arena is exhausted.
    pub fn alloc_cstring(&mut self, bytes: &[u8]) -> (r: Option<usize>)
        ensures
            r == if old(self).spec_used() + bytes@.len() + 1 <= old(self).spec_capacity() {
                Some(old(self).spec_used())
            } else {
                None
            },
            final(self).spec_capacity() == old(self).spec_capacity(),
            final(self).spec_used() == if r is Some {
                (old(self).spec_used() + bytes@.len() + 1) as usize
            } else {
                old(self).spec_used()
            },
            final(self).spec_high_water_mark() == if final(self).spec_used() > old(self).spec_high_water_mark() {
                final(self).spec_used()
            } else {
                old(self).spec_high_water_mark()
            },
            final(self).spec_bytes() == if r is Some {
                spec_with_cstring(old(self).spec_bytes(), old(self).spec_used() as int, bytes@)
            } else {
                old(self).spec_bytes()
            },
    {
        proof {
            use_type_invariant(&*self);
            crate::align::lemma_padding(self.offset as int, 1);
        }
        let len = bytes.len();
        let size = match len.checked_add(1) {
            Some(size) => size,
            None => {
                return None;
            },
        };
        let at = match self.alloc_bytes(size, 1) {
            Some(at) => at,
            None => {
                return None;
            },
        };
        proof {
            use_type_invariant(&*self);
        }
        let mut k: usize = 0;
        while k < len
            invariant
                len == bytes@.len(),
                k <= len,
                at + len + 1 <= self.buffer@.len(),
                self.buffer@.len() == old(self).buffer@.len(),
                self.offset == at + len + 1,
                self.offset <= self.high_water_mark <= self.buffer@.len(),
                self.high_water_mark == if self.offset > old(self).high_water_mark {
                    self.offset
                } else {
                    old(self).high_water_mark
                },
                forall|i: int|
                    0 <= i < self.buffer@.len() ==> self.buffer@[i] == if at <= i < at + k {
                        bytes@[i - at]
                    } else {
                        old(self).buffer@[i]
                    },
            decreases len - k,
        {
            self.buffer[at + k] = bytes[k];
            k = k + 1;
        }
        self.buffer[at + len] = 0;
        assert(self.buffer@ =~= spec_with_cstring(old(self).buffer@, at as int, bytes@));
        Some(at)
    }

    /// Copies `s` into the arena as UTF-16 with a zero unit after it, on an
    /// even position, the low byte of each unit first, and gives the position
    /// of the copy; `None` where the arena is exhausted.
    pub fn alloc_wstring(&mut self, s: &str) -> (r: Option<usize>)
        ensures
            r == if old(self).spec_next(2) + 2 * (spec_utf16(s@).len() + 1) <= old(self).spec_capacity() {
                Some(old(self).spec_next(2) as usize)
            } else {
                None
            },
            final(self).spec_capacity() == old(self).spec_capacity(),
            final(self).spec_used() == if r is Some {
                (old(self).spec_next(2) + 2 * (spec_utf16(s@).len() + 1)) as usize
            } else {
                old(self).spec_used()
            },
            final(self).spec_high_water_mark() == if final(self).spec_used() > old(self).spec_high_water_mark() {
                final(self).spec_used()
            } else {
                old(self).spec_high_water_mark()
            },
            final(self).spec_bytes() == if r is Some {
                spec_with_bytes(
                    old(self).spec_bytes(),
                    old(self).spec_next(2),
                    spec_wide_bytes(spec_utf16(s@).push(0u16)),
                )
            } else {
                old(self).spec_bytes()
            },
    {
        proof {
            use_type_invariant(&*self);
        }
        let mut wide = utf16(s);
        wide.push(0);
        let size = match wide.len().checked_mul(2) {
            Some(size) => size,
            None => {
                return None;
            },
        };
        let at = match self.alloc_bytes(size, 2) {
            Some(at) => at,
            None => {
                return None;
            },
        };
        proof {
            use_type_invariant(&*self);
        }
        let ghost bytes = spec_wide_bytes(wide@);
        let n = wide.len();
        let mut k: usize = 0;
        while k < n
            invariant
                n == wide@.len(),
                size == 2 * n,
                k <= n,
                bytes == spec_wide_bytes(wide@),
                at + size <= self.buffer@.len(),
                self.buffer@.len() == old(self).buffer@.len(),
                self.offset == at + size,
                self.offset <= self.high_water_mark <= self.buffer@.len(),
                self.high_water_mark == if self.offset > old(self).high_water_mark {
                    self.offset
                } else {
                    old(self).high_water_mark
                },
                forall|i: int|
                    0 <= i < self.buffer@.len() ==> self.buffer@[i] == if at <= i < at + 2 * k {
                        bytes[i - at]
                    } else {
                        old(self).buffer@[i]
                    },
            decreases n - k,
        {
            let unit = wide[k];
            self.buffer[at + 2 * k] = (unit % 256) as u8;
            self.buffer[at + 2 * k + 1] = (unit / 256) as u8;
            proof {
                assert(bytes[2 * k as int] == (unit % 256) as u8);
                assert(bytes[2 * k + 1] == (unit / 256) as u8);
            }
            k = k + 1;
        }
        assert(self.buffer@ =~= spec_with_bytes(old(self).buffer@, at as int, bytes));
        Some(at)
    }

    /// Hands the whole buffer back: nothing is in use. The bytes stay as
    /// they are until they are overwritten.
    pub fn reset(&mut self)
        ensures
            final(self).spec_used() == 0,
            final(self).spec_capacity() == old(self).spec_capacity(),
            final(self).spec_high_water_mark() == old(self).spec_high_water_mark(),
            final(self).spec_bytes() == old(self).spec_bytes(),
    {
        proof {
            use_type_invariant(&*self);
        }
        self.offset = 0;
    }

    pub fn used(&self) -> (r: usize)
        ensures
            r == self.spec_used(),
            r <= self.spec_capacity(),
    {
        proof {
            use_type_invariant(self);
        }
        self.offset
    }

    /// The most bytes that were ever in use at once.
    pub fn high_water_mark(&self) -> (r: usize)
        ensures
            r == self.spec_high_water_mark(),
            self.spec_used() <= r <= self.spec_capacity(),
    {
        proof {
            use_type_invariant(self);
        }
        self.high_water_mark
    }

    pub fn capacity(&self) -> (r: usize)
        ensures
            r == self.spec_capacity(),
    {
        self.buffer.len()
    }

    /// The `len` bytes at position `at`, where the buffer holds them.
    pub fn bytes_at(&self, at: usize, len: usize) -> (r: Option<Vec<u8>>)
        ensures
            r.is_some() == (at + len <= self.spec_capacity()),
            r matches Some(v) ==> v@ == self.spec_bytes().subrange(at as int, at + len),
    {
        let end = match at.checked_add(len) {
            Some(end) => end,
            None => {
                return None;
            },
        };
        if end > self.buffer.len() {
            return None;
        }
        let mut out: Vec<u8> = Vec::new();
        let mut k: usize = 0;
        while k < len
            invariant
                k <= len,
                at + len <= self.buffer@.len(),
                at + len <= usize::MAX,
                out@.len() == k,
                forall|p: int| 0 <= p < k ==> out@[p] == self.buffer@[at + p],
            decreases len - k,
        {
            out.push(self.buffer[at + k]);
            k = k + 1;
        }
        assert(out@ =~= self.spec_bytes().subrange(at as int, at + len));
        Some(out)
    }
}

/// A reset gives the whole capacity back: on an arena with nothing in use,
/// an allocation succeeds exactly when its size is at most the capacity,
/// whatever its alignment, and it starts at the front.
pub proof fn lemma_reset_restores(arena: ScratchArena, size: usize, align: usize)
    requires
        arena.spec_used() == 0,
    ensures
        arena.spec_next(align) == 0,
        arena.spec_next(align) + size <= arena.spec_capacity() <==> size <= arena.spec_capacity(),
{
    crate::align::lemma_padding(0, spec_effective_align(align as int));
}

/// An allocation that fits leaves room for exactly what the capacity still
/// holds behind it: every byte is handed out at most once until the next
/// reset.
pub proof fn lemma_allocations_advance(arena: ScratchArena, size: usize, align: usize)
    ensures
        arena.spec_next(align) >= arena.spec_used(),
        arena.spec_next(align) - arena.spec_used() < spec_effective_align(align as int),
        arena.spec_next(align) % spec_effective_align(align as int) == 0,
{
    crate::align::lemma_padding(arena.spec_used() as int, spec_effective_align(align as int));
}

} // verus!
