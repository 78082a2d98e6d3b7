//! The operations of the module that take any kind of pointer: reading and
//! writing through raw pointers, typed pointers and buffers alike, copying
//! and filling memory, casting, and reading strings.

use vstd::prelude::*;
use crate::buffer::Buffer;
use crate::errors::FfiError;
use crate::memory::{block, Memory};
use crate::pointer::{
    read_value_at, spec_read_value, spec_write_value, write_value_at, RawPointer, TypedPointer,
};
use crate::struct_mapper::{StructDefinition, StructView};
use crate::types::CType;
use crate::value::{HostValue, HostValueModel};

verus! {

/// What the host hands in where a pointer is expected.
pub enum Handle<'a> {
    Nil,
    /// A bare native address.
    Address(usize),
    Raw(&'a RawPointer),
    Typed(&'a TypedPointer),
    Buffer(&'a Buffer),
    /// Any other value.
    Other,
}

impl<'a> Handle<'a> {
    /// The address behind a raw pointer, a typed pointer or a buffer.
    /// Nothing else has one.
    pub open spec fn spec_raw_ptr(self) -> Result<usize, FfiError> {
        match self {
            Handle::Raw(p) => Ok(p.addr),
            Handle::Typed(p) => Ok(p.addr),
            Handle::Buffer(b) => Ok(b.spec_ptr()),
            _ => Err(FfiError::TypeMismatch),
        }
    }

    /// The raw pointer that a cast starts from: a raw pointer as it is, a
    /// typed pointer with the size of its known elements, and an unmanaged
    /// pointer to the address of a buffer or to a bare address.
    pub open spec fn spec_as_raw(self) -> Result<RawPointer, FfiError> {
        match self {
            Handle::Raw(p) => Ok(*p),
            Handle::Typed(p) => Ok(p.spec_to_raw()),
            Handle::Buffer(b) => Ok(
                RawPointer { addr: b.spec_ptr(), arena_id: 0, size_hint: 0 },
            ),
            Handle::Address(a) => Ok(RawPointer { addr: a, arena_id: 0, size_hint: 0 }),
            _ => Err(FfiError::TypeMismatch),
        }
    }

    /// Whether the value counts as null: nil, a null address, and a raw or
    /// typed pointer to the null address.
    pub open spec fn spec_is_null(self) -> bool {
        match self {
            Handle::Nil => true,
            Handle::Address(a) => a == 0,
            Handle::Raw(p) => p.addr == 0,
            Handle::Typed(p) => p.addr == 0,
            _ => false,
        }
    }

    /// Where an access of type `ctype` at `offset` bytes goes. A raw pointer
    /// and a buffer check the access against what they know of their size; a
    /// typed pointer allows any offset from an address that is not null.
    pub open spec fn spec_access(self, offset: usize, ctype: CType) -> Result<usize, FfiError> {
        match self {
            Handle::Raw(p) => p.spec_access(offset, ctype),
            Handle::Typed(p) => if p.addr == 0 {
                Err(FfiError::NullDereference)
            } else if p.addr + offset > usize::MAX {
                Err(FfiError::OutOfBounds)
            } else {
                Ok((p.addr + offset) as usize)
            },
            Handle::Buffer(b) => b.spec_access(offset, ctype.spec_size() as int),
            _ => Err(FfiError::TypeMismatch),
        }
    }

    pub fn get_raw_ptr(&self) -> (r: Result<usize, FfiError>)
        ensures
            r == self.spec_raw_ptr(),
    {
        match self {
            Handle::Raw(p) => Ok(p.addr),
            Handle::Typed(p) => Ok(p.addr),
            Handle::Buffer(b) => Ok(b.as_ptr()),
            _ => Err(FfiError::TypeMismatch),
        }
    }

    pub fn as_raw(&self) -> (r: Result<RawPointer, FfiError>)
        ensures
            r == self.spec_as_raw(),
    {
        match self {
            Handle::Raw(p) => Ok(**p),
            Handle::Typed(p) => Ok(p.to_raw()),
            Handle::Buffer(b) => Ok(RawPointer::new(b.as_ptr())),
            Handle::Address(a) => Ok(RawPointer::new(*a)),
            _ => Err(FfiError::TypeMismatch),
        }
    }

    pub fn is_null(&self) -> (r: bool)
        ensures
            r == self.spec_is_null(),
    {
        match self {
            Handle::Nil => true,
            Handle::Address(a) => *a == 0,
            Handle::Raw(p) => p.addr == 0,
            Handle::Typed(p) => p.addr == 0,
            _ => false,
        }
    }

    /// Checks an access of type `ctype` at `offset` bytes and gives the
    /// address that it goes to.
    pub fn access(&self, offset: usize, ctype: CType) -> (r: Result<usize, FfiError>)
        ensures
            r == self.spec_access(offset, ctype),
    {
        match self {
            Handle::Raw(p) => p.access(offset, ctype),
            Handle::Typed(p) => {
                if p.addr == 0 {
                    Err(FfiError::NullDereference)
                } else {
                    match p.addr.checked_add(offset) {
                        Some(at) => Ok(at),
                        None => Err(FfiError::OutOfBounds),
                    }
                }
            },
            Handle::Buffer(b) => {
                match b.slice(offset, ctype.size()) {
                    Ok(s) => Ok(s.as_ptr()),
                    Err(e) => Err(e),
                }
            },
            _ => Err(FfiError::TypeMismatch),
        }
    }
}

/// Reads a value of type `ctype` at `offset` bytes from a raw pointer, a
/// typed pointer or a buffer.
pub fn read(mem: &Memory, target: &Handle<'_>, offset: usize, ctype: CType) -> (r: Result<
    HostValue,
    FfiError,
>)
    requires
        mem.wf(),
    ensures
        match target.spec_access(offset, ctype) {
            Err(e) => r == Err::<HostValue, FfiError>(e),
            Ok(at) => match r {
                Ok(v) => spec_read_value(mem, at as int, ctype) == Ok::<HostValueModel, FfiError>(
                    v@,
                ),
                Err(e) => spec_read_value(mem, at as int, ctype) == Err::<
                    HostValueModel,
                    FfiError,
                >(e),
            },
        },
{
    match target.access(offset, ctype) {
        Err(e) => Err(e),
        Ok(at) => read_value_at(mem, at, ctype),
    }
}

/// Writes `value` as a value of type `ctype` at `offset` bytes from a raw
/// pointer, a typed pointer or a buffer.
pub fn write(mem: &mut Memory, target: &Handle<'_>, offset: usize, ctype: CType, value: &HostValue) -> (r:
    Result<(), FfiError>)
    requires
        old(mem).wf(),
    ensures
        final(mem).wf(),
        final(mem).spec_frontier() == old(mem).spec_frontier(),
        final(mem).spec_next_id() == old(mem).spec_next_id(),
        match target.spec_access(offset, ctype) {
            Err(e) => r == Err::<(), FfiError>(e) && final(mem)@ == old(mem)@,
            Ok(at) => match r {
                Ok(()) => spec_write_value(old(mem), at as int, ctype, value@) is Ok && final(mem)@
                    == old(mem)@.union_prefer_right(
                    block(at as int, spec_write_value(old(mem), at as int, ctype, value@)->Ok_0),
                ),
                Err(e) => spec_write_value(old(mem), at as int, ctype, value@) == Err::<
                    Seq<u8>,
                    FfiError,
                >(e) && final(mem)@ == old(mem)@,
            },
        },
{
    match target.access(offset, ctype) {
        Err(e) => Err(e),
        Ok(at) => write_value_at(mem, at, ctype, value),
    }
}

/// What copying or filling `len` bytes comes to, given the addresses
/// involved: a value without an address is a mismatch, a null address cannot
/// be copied to or from, and the ranges must be mapped.
pub open spec fn spec_copy_check(
    mem: &Memory,
    dst: Result<usize, FfiError>,
    src: Result<usize, FfiError>,
    len: usize,
) -> Result<(), FfiError> {
    match (dst, src) {
        (Err(e), _) => Err(e),
        (_, Err(e)) => Err(e),
        (Ok(d), Ok(s)) => if d == 0 || s == 0 {
            Err(FfiError::NullDereference)
        } else if !mem.spec_mapped(s as int, len as int) || !mem.spec_mapped(d as int, len as int) {
            Err(FfiError::OutOfBounds)
        } else {
            Ok(())
        },
    }
}

/// Copies `len` bytes from `src` to `dst`.
pub fn copy(mem: &mut Memory, dst: &Handle<'_>, src: &Handle<'_>, len: usize) -> (r: Result<
    (),
    FfiError,
>)
    requires
        old(mem).wf(),
    ensures
        final(mem).wf(),
        final(mem).spec_frontier() == old(mem).spec_frontier(),
        final(mem).spec_next_id() == old(mem).spec_next_id(),
        r == spec_copy_check(old(mem), dst.spec_raw_ptr(), src.spec_raw_ptr(), len),
        r is Err ==> final(mem)@ == old(mem)@,
        r is Ok ==> final(mem)@ == old(mem)@.union_prefer_right(
            block(
                dst.spec_raw_ptr()->Ok_0 as int,
                old(mem).spec_bytes(src.spec_raw_ptr()->Ok_0 as int, len as int),
            ),
        ),
{
    let d = match dst.get_raw_ptr() {
        Ok(d) => d,
        Err(e) => {
            return Err(e);
        },
    };
    let s = match src.get_raw_ptr() {
        Ok(s) => s,
        Err(e) => {
            return Err(e);
        },
    };
    if d == 0 || s == 0 {
        return Err(FfiError::NullDereference);
    }
    if mem.copy(d, s, len) {
        Ok(())
    } else {
        Err(FfiError::OutOfBounds)
    }
}

/// Sets `len` bytes from `target` on to `byte`.
pub fn fill(mem: &mut Memory, target: &Handle<'_>, len: usize, byte: u8) -> (r: Result<
    (),
    FfiError,
>)
    requires
        old(mem).wf(),
    ensures
        final(mem).wf(),
        final(mem).spec_frontier() == old(mem).spec_frontier(),
        final(mem).spec_next_id() == old(mem).spec_next_id(),
        r == spec_copy_check(old(mem), target.spec_raw_ptr(), target.spec_raw_ptr(), len),
        r is Err ==> final(mem)@ == old(mem)@,
        r is Ok ==> final(mem)@ == old(mem)@.union_prefer_right(
            block(target.spec_raw_ptr()->Ok_0 as int, Seq::new(len as nat, |k: int| byte)),
        ),
{
    let at = match target.get_raw_ptr() {
        Ok(at) => at,
        Err(e) => {
            return Err(e);
        },
    };
    if at == 0 {
        return Err(FfiError::NullDereference);
    }
    if mem.fill(at, len, byte) {
        Ok(())
    } else {
        Err(FfiError::OutOfBounds)
    }
}

/// Casts a pointer to a typed pointer of the type that goes by
/// `ctype_name`.
pub fn cast(source: &Handle<'_>, ctype_name: &str) -> (r: Result<TypedPointer, FfiError>)
    ensures
        match source.spec_as_raw() {
            Err(e) => r is Err && r->Err_0 == e,
            Ok(raw) => match CType::spec_from_str(ctype_name@) {
                None => r is Err && r->Err_0 == FfiError::UnknownType,
                Some(t) => r is Ok && r->Ok_0 == TypedPointer::spec_from_raw(raw, t),
            },
        },
{
    let raw = match source.as_raw() {
        Ok(raw) => raw,
        Err(e) => {
            return Err(e);
        },
    };
    match CType::from_str(ctype_name) {
        None => Err(FfiError::UnknownType),
        Some(t) => Ok(TypedPointer::new(&raw, t)),
    }
}

/// A view of the struct that a raw or typed pointer leads to.
pub fn view(source: &Handle<'_>, def: StructDefinition) -> (r: Result<StructView, FfiError>)
    ensures
        match source {
            Handle::Raw(_) | Handle::Typed(_) => r is Ok && r->Ok_0.ptr
                == source.spec_as_raw()->Ok_0.addr && r->Ok_0.arena_id
                == source.spec_as_raw()->Ok_0.arena_id && r->Ok_0.def == def,
            _ => r is Err && r->Err_0 == FfiError::TypeMismatch,
        },
{
    match source {
        Handle::Raw(p) => Ok(StructView::new(p, def)),
        Handle::Typed(p) => {
            let raw = p.to_raw();
            Ok(StructView::new(&raw, def))
        },
        _ => Err(FfiError::TypeMismatch),
    }
}

/// What reading a string at a pointer gives: nil for a null pointer, the
/// `len` bytes at the address where a length is given, and else the bytes up
/// to the first zero byte.
pub open spec fn spec_string(mem: &Memory, source: Handle<'_>, len: Option<usize>) -> Result<
    HostValueModel,
    FfiError,
> {
    let addr: Option<usize> = match source {
        Handle::Address(a) => Some(a),
        Handle::Raw(p) => Some(p.addr),
        Handle::Typed(p) => Some(p.addr),
        _ => None,
    };
    match addr {
        None => Err(FfiError::TypeMismatch),
        Some(a) => if a == 0 {
            Ok(HostValueModel::Nil)
        } else {
            match len {
                Some(n) => if mem.spec_mapped(a as int, n as int) {
                    Ok(HostValueModel::String(mem.spec_bytes(a as int, n as int)))
                } else {
                    Err(FfiError::OutOfBounds)
                },
                None => match mem.spec_c_string(a as int) {
                    Some(s) => Ok(HostValueModel::String(s)),
                    None => Err(FfiError::OutOfBounds),
                },
            }
        },
    }
}

/// Reads the string at a pointer.
pub fn string(mem: &Memory, source: &Handle<'_>, len: Option<usize>) -> (r: Result<
    HostValue,
    FfiError,
>)
    requires
        mem.wf(),
    ensures
        match r {
            Ok(v) => spec_string(mem, *source, len) == Ok::<HostValueModel, FfiError>(v@),
            Err(e) => spec_string(mem, *source, len) == Err::<HostValueModel, FfiError>(e),
        },
{
    let addr = match source {
        Handle::Address(a) => *a,
        Handle::Raw(p) => p.addr,
        Handle::Typed(p) => p.addr,
        _ => {
            return Err(FfiError::TypeMismatch);
        },
    };
    if addr == 0 {
        return Ok(HostValue::Nil);
    }
    let bytes = match len {
        Some(n) => mem.load(addr, n),
        None => mem.c_string_at(addr),
    };
    match bytes {
        Some(s) => Ok(HostValue::String(s)),
        None => Err(FfiError::OutOfBounds),
    }
}

} // verus!
