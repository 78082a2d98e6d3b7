//! Pointers: an address with what is known of the memory behind it. A raw
//! pointer moves by bytes, a typed pointer by elements of its type.

use vstd::prelude::*;
use vstd::string::*;
use vstd::std_specs::cmp::PartialEqSpecImpl;
use crate::codec::{decode_value, encode_value, spec_decode, spec_encode, spec_representable};
use crate::errors::FfiError;
use crate::memory::{block, Memory};
use crate::types::CType;
use crate::value::{HostValue, HostValueModel};

verus! {

/// What reading a slot of type `tag` at `addr` gives: the value that the
/// bytes there stand for, and for a string slot that holds an address the
/// zero-terminated string found at that address. The read is out of bounds
/// where the slot is not all mapped, or the string is not mapped up to its
/// terminator.
pub open spec fn spec_read_value(mem: &Memory, addr: int, tag: CType) -> Result<
    HostValueModel,
    FfiError,
> {
    if !mem.spec_mapped(addr, tag.spec_size() as int) {
        Err(FfiError::OutOfBounds)
    } else {
        let v = spec_decode(tag, mem.spec_bytes(addr, tag.spec_size() as int));
        if tag == CType::CString && v is Address {
            match mem.spec_c_string(v->Address_0 as int) {
                Some(s) => Ok(HostValueModel::String(s)),
                None => Err(FfiError::OutOfBounds),
            }
        } else {
            Ok(v)
        }
    }
}

/// What writing `value` to a slot of type `tag` at `addr` does: the bytes
/// that are stored, out of bounds where the slot is not all mapped, and the
/// mismatch where the slot cannot take the value.
pub open spec fn spec_write_value(mem: &Memory, addr: int, tag: CType, value: HostValueModel) -> Result<
    Seq<u8>,
    FfiError,
> {
    if !mem.spec_mapped(addr, tag.spec_size() as int) {
        Err(FfiError::OutOfBounds)
    } else {
        spec_encode(tag, value)
    }
}

/// Reads a value of type `ctype` at `addr`.
pub fn read_value_at(mem: &Memory, addr: usize, ctype: CType) -> (r: Result<HostValue, FfiError>)
    requires
        mem.wf(),
    ensures
        match r {
            Ok(v) => spec_read_value(mem, addr as int, ctype) == Ok::<HostValueModel, FfiError>(v@),
            Err(e) => spec_read_value(mem, addr as int, ctype) == Err::<HostValueModel, FfiError>(
                e,
            ),
        },
{
    match mem.load(addr, ctype.size()) {
        None => Err(FfiError::OutOfBounds),
        Some(bytes) => {
            let v = decode_value(ctype, bytes.as_slice());
            match ctype {
                CType::CString => match v {
                    HostValue::Address(p) => match mem.c_string_at(p) {
                        Some(s) => Ok(HostValue::String(s)),
                        None => Err(FfiError::OutOfBounds),
                    },
                    _ => Ok(v),
                },
                _ => Ok(v),
            }
        },
    }
}

/// Writes `value` as a value of type `ctype` at `addr`. Memory changes only
/// on success, and then only in the bytes of the slot.
pub fn write_value_at(mem: &mut Memory, addr: usize, ctype: CType, value: &HostValue) -> (r: Result<
    (),
    FfiError,
>)
    requires
        old(mem).wf(),
    ensures
        final(mem).wf(),
        final(mem).spec_frontier() == old(mem).spec_frontier(),
        final(mem).spec_next_id() == old(mem).spec_next_id(),
        match r {
            Ok(()) => spec_write_value(old(mem), addr as int, ctype, value@) is Ok && final(mem)@
                == old(mem)@.union_prefer_right(
                block(addr as int, spec_write_value(old(mem), addr as int, ctype, value@)->Ok_0),
            ),
            Err(e) => spec_write_value(old(mem), addr as int, ctype, value@) == Err::<
                Seq<u8>,
                FfiError,
            >(e) && final(mem)@ == old(mem)@,
        },
{
    if !mem.is_mapped(addr, ctype.size()) {
        return Err(FfiError::OutOfBounds);
    }
    match encode_value(ctype, value) {
        Err(e) => Err(e),
        Ok(bytes) => {
            let ok = mem.store(addr, bytes.as_slice());
            assert(ok);
            Ok(())
        },
    }
}

/// Round trip through memory: a value that a slot of type `tag` holds
/// exactly, written to a mapped slot, is read back from it unchanged.
pub proof fn lemma_memory_round_trip(
    before: &Memory,
    after: &Memory,
    addr: int,
    tag: CType,
    value: HostValueModel,
)
    requires
        tag != CType::Void,
        spec_representable(tag, value),
        before.spec_mapped(addr, tag.spec_size() as int),
        spec_write_value(before, addr, tag, value) is Ok,
        after@ == before@.union_prefer_right(
            block(addr, spec_write_value(before, addr, tag, value)->Ok_0),
        ),
    ensures
        spec_read_value(after, addr, tag) == Ok::<HostValueModel, FfiError>(value),
{
    crate::codec::lemma_round_trip(tag, value);
    let bytes = spec_encode(tag, value)->Ok_0;
    assert(after.spec_bytes(addr, tag.spec_size() as int) =~= bytes);
}

/// A pointer without a type: an address, the arena that the memory belongs
/// to (0 for none) and the number of bytes known to lie behind it (0 for
/// unknown).
#[derive(Debug, Clone, Copy)]
pub struct RawPointer {
    pub addr: usize,
    pub arena_id: usize,
    pub size_hint: usize,
}

impl PartialEq for RawPointer {
    /// Raw pointers are equal where their addresses are.
    fn eq(&self, other: &Self) -> (r: bool) {
        self.addr == other.addr
    }
}

impl PartialEqSpecImpl for RawPointer {
    open spec fn obeys_eq_spec() -> bool {
        true
    }

    open spec fn eq_spec(&self, other: &Self) -> bool {
        self.addr == other.addr
    }
}

/// The hint that is left after a move by `offset`: what remains of a known
/// hint after a move forward, and unknown after a move backward or from an
/// unknown hint.
pub open spec fn spec_hint_after(hint: usize, offset: isize) -> usize {
    if hint > 0 && offset >= 0 {
        if offset >= hint {
            0
        } else {
            (hint - offset) as usize
        }
    } else {
        0
    }
}

fn hint_after(hint: usize, offset: isize) -> (r: usize)
    ensures
        r == spec_hint_after(hint, offset),
{
    if hint > 0 && offset >= 0 {
        hint.saturating_sub(offset as usize)
    } else {
        0
    }
}

impl RawPointer {
    /// An unmanaged pointer to `addr`: no arena, nothing known of its size.
    pub fn new(addr: usize) -> (r: Self)
        ensures
            r == (RawPointer { addr, arena_id: 0, size_hint: 0 }),
    {
        RawPointer { addr, arena_id: 0, size_hint: 0 }
    }

    /// A pointer to `size` bytes at `addr` that belong to an arena.
    pub fn managed(addr: usize, arena_id: usize, size: usize) -> (r: Self)
        ensures
            r == (RawPointer { addr, arena_id, size_hint: size }),
    {
        RawPointer { addr, arena_id, size_hint: size }
    }

    pub fn is_null(&self) -> (r: bool)
        ensures
            r == (self.addr == 0),
    {
        self.addr == 0
    }

    /// Whether the memory belongs to an arena.
    pub fn is_managed(&self) -> (r: bool)
        ensures
            r == (self.arena_id != 0),
    {
        self.arena_id != 0
    }

    pub fn as_usize(&self) -> (r: usize)
        ensures
            r == self.addr,
    {
        self.addr
    }

    /// What `read` gives.
    pub open spec fn spec_read(&self, mem: &Memory, offset: usize, ctype: CType) -> Result<
        HostValueModel,
        FfiError,
    > {
        match self.spec_access(offset, ctype) {
            Err(e) => Err(e),
            Ok(at) => spec_read_value(mem, at as int, ctype),
        }
    }

    /// The address that an access of type `ctype` at `offset` goes to, or why
    /// the pointer does not allow it: a null pointer allows none, and one with
    /// a known size allows those that end within it.
    pub open spec fn spec_access(&self, offset: usize, ctype: CType) -> Result<usize, FfiError> {
        if self.addr == 0 {
            Err(FfiError::NullDereference)
        } else if self.size_hint > 0 && offset + ctype.spec_size() > self.size_hint {
            Err(FfiError::OutOfBounds)
        } else if self.addr + offset > usize::MAX {
            Err(FfiError::OutOfBounds)
        } else {
            Ok((self.addr + offset) as usize)
        }
    }

    /// The pointer moved by `offset` bytes; the address wraps around at the
    /// ends of the address space.
    pub fn offset_bytes(&self, offset: isize) -> (r: Self)
        ensures
            r.addr == self.addr.wrapping_add_signed(offset),
            0 <= self.addr + offset <= usize::MAX ==> r.addr == self.addr + offset,
            r.arena_id == self.arena_id,
            r.size_hint == spec_hint_after(self.size_hint, offset),
    {
        RawPointer {
            addr: self.addr.wrapping_add_signed(offset),
            arena_id: self.arena_id,
            size_hint: hint_after(self.size_hint, offset),
        }
    }

    /// Checks an access of type `ctype` at `offset` against the pointer and
    /// gives the address that it goes to.
    pub fn access(&self, offset: usize, ctype: CType) -> (r: Result<usize, FfiError>)
        ensures
            r == self.spec_access(offset, ctype),
    {
        if self.addr == 0 {
            return Err(FfiError::NullDereference);
        }
        if self.size_hint > 0 {
            match offset.checked_add(ctype.size()) {
                None => {
                    return Err(FfiError::OutOfBounds);
                },
                Some(end) => {
                    if end > self.size_hint {
                        return Err(FfiError::OutOfBounds);
                    }
                },
            }
        }
        match self.addr.checked_add(offset) {
            None => Err(FfiError::OutOfBounds),
            Some(at) => Ok(at),
        }
    }

    /// Reads a value of type `ctype` at `offset` bytes from the pointer.
    pub fn read(&self, mem: &Memory, offset: usize, ctype: CType) -> (r: Result<
        HostValue,
        FfiError,
    >)
        requires
            mem.wf(),
        ensures
            match r {
                Ok(v) => self.spec_read(mem, offset, ctype) == Ok::<HostValueModel, FfiError>(v@),
                Err(e) => self.spec_read(mem, offset, ctype) == Err::<HostValueModel, FfiError>(
                    e,
                ),
            },
    {
        match self.access(offset, ctype) {
            Err(e) => Err(e),
            Ok(at) => read_value_at(mem, at, ctype),
        }
    }

    /// Writes `value` as a value of type `ctype` at `offset` bytes from the
    /// pointer.
    pub fn write(&self, mem: &mut Memory, offset: usize, ctype: CType, value: &HostValue) -> (r:
        Result<(), FfiError>)
        requires
            old(mem).wf(),
        ensures
            final(mem).wf(),
            final(mem).spec_frontier() == old(mem).spec_frontier(),
            final(mem).spec_next_id() == old(mem).spec_next_id(),
            match self.spec_access(offset, ctype) {
                Err(e) => r == Err::<(), FfiError>(e) && final(mem)@ == old(mem)@,
                Ok(at) => match r {
                    Ok(()) => spec_write_value(old(mem), at as int, ctype, value@) is Ok && final(mem)@ == old(mem)@.union_prefer_right(
                        block(
                            at as int,
                            spec_write_value(old(mem), at as int, ctype, value@)->Ok_0,
                        ),
                    ),
                    Err(e) => spec_write_value(old(mem), at as int, ctype, value@) == Err::<
                        Seq<u8>,
                        FfiError,
                    >(e) && final(mem)@ == old(mem)@,
                },
            },
    {
        match self.access(offset, ctype) {
            Err(e) => Err(e),
            Ok(at) => write_value_at(mem, at, ctype, value),
        }
    }
}

/// A pointer to elements of one type: an address, the type, the distance in
/// bytes from one element to the next, the arena that the memory belongs to
/// (0 for none) and the number of elements known to lie behind it (0 for
/// unknown).
#[derive(Debug, Clone, Copy)]
pub struct TypedPointer {
    pub addr: usize,
    pub ctype: CType,
    pub stride: usize,
    pub arena_id: usize,
    pub element_count: usize,
}

impl PartialEq for TypedPointer {
    /// Typed pointers are equal where their addresses and their types are.
    fn eq(&self, other: &Self) -> (r: bool) {
        self.addr == other.addr && self.ctype == other.ctype
    }
}

impl PartialEqSpecImpl for TypedPointer {
    open spec fn obeys_eq_spec() -> bool {
        true
    }

    open spec fn eq_spec(&self, other: &Self) -> bool {
        self.addr == other.addr && self.ctype == other.ctype
    }
}

impl TypedPointer {
    /// The typed pointer to the memory of a raw one: as many elements as fit
    /// into its known size, and an unknown number where the size is unknown
    /// or the type has none.
    pub open spec fn spec_from_raw(raw: RawPointer, ctype: CType) -> TypedPointer {
        TypedPointer {
            addr: raw.addr,
            ctype,
            stride: ctype.spec_size() as usize,
            arena_id: raw.arena_id,
            element_count: if raw.size_hint > 0 && ctype.spec_size() > 0 {
                (raw.size_hint as int / ctype.spec_size() as int) as usize
            } else {
                0
            },
        }
    }

    /// The raw pointer to the memory of a typed one: its size is that of the
    /// known elements, and unknown where that number is beyond `usize`.
    pub open spec fn spec_to_raw(self) -> RawPointer {
        RawPointer {
            addr: self.addr,
            arena_id: self.arena_id,
            size_hint: if self.element_count * self.stride <= usize::MAX {
                (self.element_count * self.stride) as usize
            } else {
                0
            },
        }
    }

    /// The typed pointer to the memory of a raw one.
    pub fn new(raw: &RawPointer, ctype: CType) -> (r: Self)
        ensures
            r == Self::spec_from_raw(*raw, ctype),
            r.addr == raw.addr,
            r.ctype == ctype,
            r.stride == ctype.spec_size(),
            r.arena_id == raw.arena_id,
            r.element_count == if raw.size_hint > 0 && ctype.spec_size() > 0 {
                raw.size_hint as int / ctype.spec_size() as int
            } else {
                0
            },
    {
        let stride = ctype.size();
        let element_count = if raw.size_hint > 0 && stride > 0 {
            raw.size_hint / stride
        } else {
            0
        };
        TypedPointer { addr: raw.addr, ctype, stride, arena_id: raw.arena_id, element_count }
    }

    /// An unmanaged typed pointer to `addr`.
    pub fn from_addr(addr: usize, ctype: CType) -> (r: Self)
        ensures
            r == (TypedPointer {
                addr,
                ctype,
                stride: ctype.spec_size() as usize,
                arena_id: 0,
                element_count: 0,
            }),
    {
        TypedPointer { addr, ctype, stride: ctype.size(), arena_id: 0, element_count: 0 }
    }

    pub fn as_usize(&self) -> (r: usize)
        ensures
            r == self.addr,
    {
        self.addr
    }

    /// The number of elements known to lie behind the pointer, if it is
    /// known.
    pub fn count(&self) -> (r: Option<usize>)
        ensures
            r == if self.element_count > 0 {
                Some(self.element_count)
            } else {
                None
            },
    {
        if self.element_count > 0 {
            Some(self.element_count)
        } else {
            None
        }
    }

    /// The pointer moved by `count` elements; the address wraps around at
    /// the ends of the address space.
    pub fn offset_elements(&self, count: isize) -> (r: Self)
        ensures
            r.addr == self.addr.wrapping_add_signed(count.wrapping_mul(self.stride as isize)),
            r.ctype == self.ctype,
            r.stride == self.stride,
            r.arena_id == self.arena_id,
            r.element_count == spec_hint_after(self.element_count, count),
    {
        let stride = #[verifier::truncate]
        (self.stride as isize);
        TypedPointer {
            addr: self.addr.wrapping_add_signed(count.wrapping_mul(stride)),
            ctype: self.ctype,
            stride: self.stride,
            arena_id: self.arena_id,
            element_count: hint_after(self.element_count, count),
        }
    }

    /// The raw pointer to the same memory.
    pub fn to_raw(&self) -> (r: RawPointer)
        ensures
            r == self.spec_to_raw(),
            r.addr == self.addr,
            r.arena_id == self.arena_id,
            r.size_hint == if self.element_count * self.stride <= usize::MAX {
                self.element_count * self.stride
            } else {
                0
            },
    {
        let size_hint = match self.element_count.checked_mul(self.stride) {
            Some(n) => n,
            None => 0,
        };
        RawPointer { addr: self.addr, arena_id: self.arena_id, size_hint }
    }

    /// The address of the element at `index`, or why the pointer does not
    /// allow the access: a null pointer allows none, and one with a known
    /// element count allows the indices below it.
    pub open spec fn spec_element(&self, index: usize) -> Result<usize, FfiError> {
        if self.addr == 0 {
            Err(FfiError::NullDereference)
        } else if self.element_count > 0 && index >= self.element_count {
            Err(FfiError::IndexOutOfBounds)
        } else if self.addr + index * self.stride > usize::MAX {
            Err(FfiError::OutOfBounds)
        } else {
            Ok((self.addr + index * self.stride) as usize)
        }
    }

    /// Checks an access to the element at `index` and gives its address.
    pub fn element(&self, index: usize) -> (r: Result<usize, FfiError>)
        ensures
            r == self.spec_element(index),
    {
        if self.addr == 0 {
            return Err(FfiError::NullDereference);
        }
        if self.element_count > 0 && index >= self.element_count {
            return Err(FfiError::IndexOutOfBounds);
        }
        match index.checked_mul(self.stride) {
            None => Err(FfiError::OutOfBounds),
            Some(offset) => match self.addr.checked_add(offset) {
                None => Err(FfiError::OutOfBounds),
                Some(at) => Ok(at),
            },
        }
    }

    /// Reads the element at `index`.
    pub fn read_at(&self, mem: &Memory, index: usize) -> (r: Result<HostValue, FfiError>)
        requires
            mem.wf(),
        ensures
            match self.spec_element(index) {
                Err(e) => r == Err::<HostValue, FfiError>(e),
                Ok(at) => match r {
                    Ok(v) => spec_read_value(mem, at as int, self.ctype) == Ok::<
                        HostValueModel,
                        FfiError,
                    >(v@),
                    Err(e) => spec_read_value(mem, at as int, self.ctype) == Err::<
                        HostValueModel,
                        FfiError,
                    >(e),
                },
            },
    {
        match self.element(index) {
            Err(e) => Err(e),
            Ok(at) => read_value_at(mem, at, self.ctype),
        }
    }

    /// Writes `value` to the element at `index`.
    pub fn write_at(&self, mem: &mut Memory, index: usize, value: &HostValue) -> (r: Result<
        (),
        FfiError,
    >)
        requires
            old(mem).wf(),
        ensures
            final(mem).wf(),
            final(mem).spec_frontier() == old(mem).spec_frontier(),
            final(mem).spec_next_id() == old(mem).spec_next_id(),
            match self.spec_element(index) {
                Err(e) => r == Err::<(), FfiError>(e) && final(mem)@ == old(mem)@,
                Ok(at) => match r {
                    Ok(()) => spec_write_value(old(mem), at as int, self.ctype, value@) is Ok
                        && final(mem)@ == old(mem)@.union_prefer_right(
                        block(
                            at as int,
                            spec_write_value(old(mem), at as int, self.ctype, value@)->Ok_0,
                        ),
                    ),
                    Err(e) => spec_write_value(old(mem), at as int, self.ctype, value@) == Err::<
                        Seq<u8>,
                        FfiError,
                    >(e) && final(mem)@ == old(mem)@,
                },
            },
    {
        match self.element(index) {
            Err(e) => Err(e),
            Ok(at) => write_value_at(mem, at, self.ctype, value),
        }
    }
}

/// The bounds of a typed pointer over `count` known elements: the index
/// `count` is refused, every index below it is allowed where the address is
/// in range, and a move by `count` elements leaves nothing known behind the
/// pointer.
pub proof fn lemma_typed_pointer_bounds(p: TypedPointer, count: usize)
    requires
        p.addr != 0,
        p.element_count == count,
        count >= 1,
        count <= isize::MAX,
        p.addr + count * p.stride <= usize::MAX,
    ensures
        p.spec_element(count) == Err::<usize, FfiError>(FfiError::IndexOutOfBounds),
        p.spec_element((count - 1) as usize) == Ok::<usize, FfiError>(
            (p.addr + (count - 1) * p.stride) as usize,
        ),
        spec_hint_after(p.element_count, count as isize) == 0,
{
    assert((count - 1) * p.stride <= count * p.stride) by (nonlinear_arith)
        requires
            count >= 1,
            p.stride >= 0,
    ;
}

/// From typed to raw and back: a typed pointer whose stride is the size of
/// its type comes back unchanged from its raw pointer, as long as the size of
/// its elements is within `usize`.
pub proof fn lemma_typed_raw_round_trip(p: TypedPointer)
    requires
        p.stride == p.ctype.spec_size(),
        p.stride > 0,
        p.element_count * p.stride <= usize::MAX,
    ensures
        TypedPointer::spec_from_raw(p.spec_to_raw(), p.ctype) == p,
{
    let count = p.element_count as int;
    let stride = p.stride as int;
    assert((count * stride) / stride == count) by (nonlinear_arith)
        requires
            stride > 0,
    ;
    assert(count * stride > 0 <==> count > 0) by (nonlinear_arith)
        requires
            stride > 0,
            count >= 0,
    ;
}

/// The index that a host number stands for: an integer by its low bits, a
/// number rounded toward zero and held to the range of `usize`.
pub open spec fn spec_index_of(key: HostValueModel) -> Option<usize> {
    match key {
        HostValueModel::Integer(i) => Some(i as usize),
        HostValueModel::Number(n) => Some(
            if crate::ieee::spec_double_to_u64(n) > usize::MAX {
                usize::MAX
            } else {
                crate::ieee::spec_double_to_u64(n) as usize
            },
        ),
        _ => None,
    }
}

/// The index that a host number stands for.
pub fn index_of(key: &HostValue) -> (r: Option<usize>)
    ensures
        r == spec_index_of(key@),
{
    match key {
        HostValue::Integer(i) => Some(
            #[verifier::truncate]
            (*i as usize),
        ),
        HostValue::Number(n) => {
            let v = crate::ieee::double_to_u64(*n);
            if v > usize::MAX as u64 {
                Some(usize::MAX)
            } else {
                Some(v as usize)
            }
        },
        _ => None,
    }
}

/// Whether the bytes `key` spell `name`.
pub open spec fn spec_spells(key: Seq<u8>, name: Seq<char>) -> bool {
    key == vstd::utf8::encode_utf8(name)
}

fn spells(key: &Vec<u8>, name: &str) -> (r: bool)
    ensures
        r == spec_spells(key@, name@),
{
    let bytes = name.as_bytes();
    if key.len() != bytes.len() {
        return false;
    }
    let mut i: usize = 0;
    while i < key.len()
        invariant
            bytes@ == vstd::utf8::encode_utf8(name@),
            key@.len() == bytes@.len(),
            i <= key@.len(),
            forall|j: int| 0 <= j < i ==> key@[j] == bytes@[j],
        decreases key@.len() - i,
    {
        if key[i] != bytes[i] {
            return false;
        }
        i = i + 1;
    }
    assert(key@ =~= bytes@);
    true
}

impl TypedPointer {
    /// What indexing the pointer with a host value gives: the element at a
    /// numeric index, and under the names `addr`, `stride` and `isNull` what
    /// the pointer knows of itself. Any other name is an unknown field, and
    /// any other kind of key a mismatch.
    pub fn index(&self, mem: &Memory, key: &HostValue) -> (r: Result<HostValue, FfiError>)
        requires
            mem.wf(),
        ensures
            match key@ {
                HostValueModel::String(s) => r is Ok == (spec_spells(s, "addr"@) || spec_spells(
                    s,
                    "stride"@,
                ) || spec_spells(s, "isNull"@)) && match r {
                    Ok(v) => v@ == if spec_spells(s, "addr"@) {
                        HostValueModel::Integer(self.addr as i64)
                    } else if spec_spells(s, "stride"@) {
                        HostValueModel::Integer(self.stride as i64)
                    } else {
                        HostValueModel::Boolean(self.addr == 0)
                    },
                    Err(e) => e == FfiError::UnknownField,
                },
                _ => match spec_index_of(key@) {
                    None => r == Err::<HostValue, FfiError>(FfiError::TypeMismatch),
                    Some(i) => match self.spec_element(i) {
                        Err(e) => r == Err::<HostValue, FfiError>(e),
                        Ok(at) => match r {
                            Ok(v) => spec_read_value(mem, at as int, self.ctype) == Ok::<
                                HostValueModel,
                                FfiError,
                            >(v@),
                            Err(e) => spec_read_value(mem, at as int, self.ctype) == Err::<
                                HostValueModel,
                                FfiError,
                            >(e),
                        },
                    },
                },
            },
    {
        match key {
            HostValue::String(s) => {
                if spells(s, "addr") {
                    Ok(
                        HostValue::Integer(
                            #[verifier::truncate]
                            (self.addr as i64),
                        ),
                    )
                } else if spells(s, "stride") {
                    Ok(
                        HostValue::Integer(
                            #[verifier::truncate]
                            (self.stride as i64),
                        ),
                    )
                } else if spells(s, "isNull") {
                    Ok(HostValue::Boolean(self.addr == 0))
                } else {
                    Err(FfiError::UnknownField)
                }
            },
            _ => match index_of(key) {
                Some(i) => self.read_at(mem, i),
                None => Err(FfiError::TypeMismatch),
            },
        }
    }
}

} // verus!
