//! Bound functions whose interface is built once, and the storage that
//! keeps the native arguments of one call.
//!
//! Strings are copied into a scratch arena for the time of the call, so
//! that no memory is allocated per call. An argument in the storage is one of
//! the basic native values, or the place of a string in the scratch arena.

use vstd::prelude::*;
use vstd::string::*;
use crate::caller::{
    call_and_convert, pointer_arg, spec_convert_return, spec_pointer_arg, spec_supported,
    spec_value_views, CallInterface,
};
use crate::types::same;
use crate::endian::{low_bits, sign_extend, spec_low, spec_wrap_signed};
use crate::errors::FfiError;
use crate::ieee::{
    double_to_single, double_to_u64, spec_double_to_single, spec_double_to_u64,
};
use crate::memory::Memory;
use crate::scratch_arena::{spec_with_cstring, ScratchArena};
use crate::types::CType;
use crate::value::{HostValue, HostValueModel};

verus! {

/// Where the value of an argument is kept: the kind of the value and its
/// index among the stored values of that kind.
#[derive(Debug, Clone, Copy)]
pub enum ArgRef {
    I8(usize),
    U8(usize),
    I16(usize),
    U16(usize),
    I32(usize),
    U32(usize),
    I64(usize),
    U64(usize),
    F32(usize),
    F64(usize),
    Ptr(usize),
    CStr(usize),
}

/// The native value of a stored argument. A float is carried as its bit
/// pattern, and a string as the position of its bytes in the scratch arena.
#[derive(Debug, Clone, Copy, PartialEq, Eq, Structural)]
pub enum StoredArg {
    I8(i8),
    U8(u8),
    I16(i16),
    U16(u16),
    I32(i32),
    U32(u32),
    I64(i64),
    U64(u64),
    F32(u32),
    F64(u64),
    Ptr(usize),
    CStr(usize),
}

/// The native arguments of one call, kept by kind so that each value stays
/// in place until the call is over.
pub struct ArgStorage {
    i8s: Vec<i8>,
    u8s: Vec<u8>,
    i16s: Vec<i16>,
    u16s: Vec<u16>,
    i32s: Vec<i32>,
    u32s: Vec<u32>,
    i64s: Vec<i64>,
    u64s: Vec<u64>,
    f32s: Vec<u32>,
    f64s: Vec<u64>,
    ptrs: Vec<usize>,
    cstrings: Vec<usize>,
    args: Vec<ArgRef>,
}

/// What becomes of a string argument: its place in the scratch arena, which
/// is where the arena's bytes in use end. A value that is no string is a
/// mismatch, a string with a zero byte inside is refused, and a string that
/// does not fit in what is left of the arena exhausts it.
pub open spec fn spec_scratch_string(value: HostValueModel, used: usize, capacity: usize) -> Result<
    usize,
    FfiError,
> {
    match value {
        HostValueModel::String(s) => if s.contains(0u8) {
            Err(FfiError::InvalidCString)
        } else if used + s.len() + 1 > capacity {
            Err(FfiError::ArenaExhausted)
        } else {
            Ok(used)
        },
        _ => Err(FfiError::TypeMismatch),
    }
}

/// The native value that `value` is stored as for a parameter of type
/// `ctype`, with `used` of `capacity` bytes of the scratch arena taken.
///
/// A boolean is stored as the byte 1 or 0. An integer parameter takes the
/// value as a 64-bit integer and keeps its low bytes in two's complement. A `U64` or `USize`
/// parameter takes the value as a number, rounded toward zero and held to the
/// range, `F32` the nearest single. A pointer is null for nil, the address of
/// an address value or of a buffer, or a number taken as an address. `Void` is
/// no parameter type.
pub open spec fn spec_stored(value: HostValueModel, ctype: CType, used: usize, capacity: usize) -> Result<
    StoredArg,
    FfiError,
> {
    match ctype {
        CType::Void => Err(FfiError::UnsupportedSignature),
        CType::Bool => Ok(
            StoredArg::I8(
                if value.truthy() {
                    1i8
                } else {
                    0i8
                },
            ),
        ),
        CType::I8 => match value.as_integer() {
            Some(i) => Ok(StoredArg::I8(spec_wrap_signed(i as int, 1) as i8)),
            None => Err(FfiError::TypeMismatch),
        },
        CType::U8 => match value.as_integer() {
            Some(i) => Ok(StoredArg::U8(spec_low(i as int, 1) as u8)),
            None => Err(FfiError::TypeMismatch),
        },
        CType::I16 => match value.as_integer() {
            Some(i) => Ok(StoredArg::I16(spec_wrap_signed(i as int, 2) as i16)),
            None => Err(FfiError::TypeMismatch),
        },
        CType::U16 => match value.as_integer() {
            Some(i) => Ok(StoredArg::U16(spec_low(i as int, 2) as u16)),
            None => Err(FfiError::TypeMismatch),
        },
        CType::I32 => match value.as_integer() {
            Some(i) => Ok(StoredArg::I32(spec_wrap_signed(i as int, 4) as i32)),
            None => Err(FfiError::TypeMismatch),
        },
        CType::U32 => match value.as_integer() {
            Some(i) => Ok(StoredArg::U32(spec_low(i as int, 4) as u32)),
            None => Err(FfiError::TypeMismatch),
        },
        CType::I64 | CType::ISize => match value.as_integer() {
            Some(i) => Ok(StoredArg::I64(i)),
            None => Err(FfiError::TypeMismatch),
        },
        CType::U64 | CType::USize => match value.as_number() {
            Some(n) => Ok(StoredArg::U64(spec_double_to_u64(n))),
            None => Err(FfiError::TypeMismatch),
        },
        CType::F32 => match value.as_number() {
            Some(n) => Ok(StoredArg::F32(spec_double_to_single(n))),
            None => Err(FfiError::TypeMismatch),
        },
        CType::F64 => match value.as_number() {
            Some(n) => Ok(StoredArg::F64(n)),
            None => Err(FfiError::TypeMismatch),
        },
        CType::Pointer => match spec_pointer_arg(value) {
            Ok(a) => Ok(StoredArg::Ptr(a)),
            Err(e) => Err(e),
        },
        CType::CString => match spec_scratch_string(value, used, capacity) {
            Ok(at) => Ok(StoredArg::CStr(at)),
            Err(e) => Err(e),
        },
    }
}

/// The bytes of the scratch arena after `value` was stored for a parameter
/// of type `ctype`: a string that was stored is copied in with a zero after
/// it, and nothing else changes them.
pub open spec fn spec_scratch_after(
    value: HostValueModel,
    ctype: CType,
    used: usize,
    bytes: Seq<u8>,
) -> (Seq<u8>, int) {
    if ctype == CType::CString && spec_scratch_string(value, used, bytes.len() as usize) is Ok {
        (
            spec_with_cstring(bytes, used as int, value->String_0),
            used + value->String_0.len() + 1,
        )
    } else {
        (bytes, used as int)
    }
}

fn contains_zero(s: &Vec<u8>) -> (r: bool)
    ensures
        r == s@.contains(0u8),
{
    let mut i: usize = 0;
    while i < s.len()
        invariant
            i <= s@.len(),
            forall|j: int| 0 <= j < i ==> s@[j] != 0,
        decreases s@.len() - i,
    {
        if s[i] == 0 {
            assert(s@[i as int] == 0u8);
            return true;
        }
        i = i + 1;
    }
    false
}

impl ArgStorage {
    /// The invariant of the type: every argument refers to a stored value.
    pub closed spec fn wf(&self) -> bool {
        forall|i: int| 0 <= i < self.args@.len() ==> self.in_range(#[trigger] self.args@[i])
    }

    spec fn in_range(self, r: ArgRef) -> bool {
        match r {
            ArgRef::I8(k) => k < self.i8s@.len(),
            ArgRef::U8(k) => k < self.u8s@.len(),
            ArgRef::I16(k) => k < self.i16s@.len(),
            ArgRef::U16(k) => k < self.u16s@.len(),
            ArgRef::I32(k) => k < self.i32s@.len(),
            ArgRef::U32(k) => k < self.u32s@.len(),
            ArgRef::I64(k) => k < self.i64s@.len(),
            ArgRef::U64(k) => k < self.u64s@.len(),
            ArgRef::F32(k) => k < self.f32s@.len(),
            ArgRef::F64(k) => k < self.f64s@.len(),
            ArgRef::Ptr(k) => k < self.ptrs@.len(),
            ArgRef::CStr(k) => k < self.cstrings@.len(),
        }
    }

    spec fn value_of(self, r: ArgRef) -> StoredArg {
        match r {
            ArgRef::I8(k) => StoredArg::I8(self.i8s@[k as int]),
            ArgRef::U8(k) => StoredArg::U8(self.u8s@[k as int]),
            ArgRef::I16(k) => StoredArg::I16(self.i16s@[k as int]),
            ArgRef::U16(k) => StoredArg::U16(self.u16s@[k as int]),
            ArgRef::I32(k) => StoredArg::I32(self.i32s@[k as int]),
            ArgRef::U32(k) => StoredArg::U32(self.u32s@[k as int]),
            ArgRef::I64(k) => StoredArg::I64(self.i64s@[k as int]),
            ArgRef::U64(k) => StoredArg::U64(self.u64s@[k as int]),
            ArgRef::F32(k) => StoredArg::F32(self.f32s@[k as int]),
            ArgRef::F64(k) => StoredArg::F64(self.f64s@[k as int]),
            ArgRef::Ptr(k) => StoredArg::Ptr(self.ptrs@[k as int]),
            ArgRef::CStr(k) => StoredArg::CStr(self.cstrings@[k as int]),
        }
    }

    /// Storage without arguments.
    pub fn new() -> (r: Self)
        ensures
            r.wf(),
            r@ == Seq::<StoredArg>::empty(),
    {
        let r = ArgStorage {
            i8s: Vec::new(),
            u8s: Vec::new(),
            i16s: Vec::new(),
            u16s: Vec::new(),
            i32s: Vec::new(),
            u32s: Vec::new(),
            i64s: Vec::new(),
            u64s: Vec::new(),
            f32s: Vec::new(),
            f64s: Vec::new(),
            ptrs: Vec::new(),
            cstrings: Vec::new(),
            args: Vec::new(),
        };
        assert(r@ =~= Seq::<StoredArg>::empty());
        r
    }

    fn keep(&mut self, stored: StoredArg)
        requires
            old(self).wf(),
        ensures
            final(self).wf(),
            final(self)@ == old(self)@.push(stored),
    {
        let ghost before = *self;
        let r = match stored {
            StoredArg::I8(v) => {
                self.i8s.push(v);
                ArgRef::I8(self.i8s.len() - 1)
            },
            StoredArg::U8(v) => {
                self.u8s.push(v);
                ArgRef::U8(self.u8s.len() - 1)
            },
            StoredArg::I16(v) => {
                self.i16s.push(v);
                ArgRef::I16(self.i16s.len() - 1)
            },
            StoredArg::U16(v) => {
                self.u16s.push(v);
                ArgRef::U16(self.u16s.len() - 1)
            },
            StoredArg::I32(v) => {
                self.i32s.push(v);
                ArgRef::I32(self.i32s.len() - 1)
            },
            StoredArg::U32(v) => {
                self.u32s.push(v);
                ArgRef::U32(self.u32s.len() - 1)
            },
            StoredArg::I64(v) => {
                self.i64s.push(v);
                ArgRef::I64(self.i64s.len() - 1)
            },
            StoredArg::U64(v) => {
                self.u64s.push(v);
                ArgRef::U64(self.u64s.len() - 1)
            },
            StoredArg::F32(v) => {
                self.f32s.push(v);
                ArgRef::F32(self.f32s.len() - 1)
            },
            StoredArg::F64(v) => {
                self.f64s.push(v);
                ArgRef::F64(self.f64s.len() - 1)
            },
            StoredArg::Ptr(v) => {
                self.ptrs.push(v);
                ArgRef::Ptr(self.ptrs.len() - 1)
            },
            StoredArg::CStr(v) => {
                self.cstrings.push(v);
                ArgRef::CStr(self.cstrings.len() - 1)
            },
        };
        proof {
            assert forall|i: int| 0 <= i < before.args@.len() implies self.in_range(
                #[trigger] self.args@[i],
            ) && self.value_of(self.args@[i]) == before.value_of(before.args@[i]) by {
                assert(before.in_range(before.args@[i]));
            }
            assert(self.in_range(r) && self.value_of(r) == stored);
        }
        self.args.push(r);
        proof {
            assert forall|i: int| 0 <= i < self.args@.len() implies self.in_range(
                #[trigger] self.args@[i],
            ) by {
                if i < before.args@.len() {
                    assert(before.in_range(before.args@[i]));
                }
            }
            assert(self@ =~= before@.push(stored));
        }
    }

    /// Stores `value` as the next argument, for a parameter of type `ctype`.
    /// A string is copied into the scratch arena. On failure neither the
    /// storage nor the arena changes.
    pub fn push(&mut self, value: &HostValue, ctype: CType, scratch: &mut ScratchArena) -> (r: Result<
        (),
        FfiError,
    >)
        requires
            old(self).wf(),
        ensures
            final(self).wf(),
            match r {
                Ok(()) => spec_stored(
                    value@,
                    ctype,
                    old(scratch).spec_used(),
                    old(scratch).spec_capacity(),
                ) is Ok && final(self)@ == old(self)@.push(
                    spec_stored(
                        value@,
                        ctype,
                        old(scratch).spec_used(),
                        old(scratch).spec_capacity(),
                    )->Ok_0,
                ),
                Err(e) => spec_stored(
                    value@,
                    ctype,
                    old(scratch).spec_used(),
                    old(scratch).spec_capacity(),
                ) == Err::<StoredArg, FfiError>(e) && final(self)@ == old(self)@,
            },
            final(scratch).spec_capacity() == old(scratch).spec_capacity(),
            (final(scratch).spec_bytes(), final(scratch).spec_used() as int) == spec_scratch_after(
                value@,
                ctype,
                old(scratch).spec_used(),
                old(scratch).spec_bytes(),
            ),
    {
        proof {
            scratch.lemma_capacity();
            crate::endian::lemma_pow256();
        }
        let stored = match ctype {
            CType::Void => {
                return Err(FfiError::UnsupportedSignature);
            },
            CType::Bool => StoredArg::I8(
                if value.truthy() {
                    1
                } else {
                    0
                },
            ),
            CType::I8 => match value.as_integer() {
                Some(i) => StoredArg::I8(sign_extend(low_bits(i, 1), 1) as i8),
                None => {
                    return Err(FfiError::TypeMismatch);
                },
            },
            CType::U8 => match value.as_integer() {
                Some(i) => StoredArg::U8(low_bits(i, 1) as u8),
                None => {
                    return Err(FfiError::TypeMismatch);
                },
            },
            CType::I16 => match value.as_integer() {
                Some(i) => StoredArg::I16(sign_extend(low_bits(i, 2), 2) as i16),
                None => {
                    return Err(FfiError::TypeMismatch);
                },
            },
            CType::U16 => match value.as_integer() {
                Some(i) => StoredArg::U16(low_bits(i, 2) as u16),
                None => {
                    return Err(FfiError::TypeMismatch);
                },
            },
            CType::I32 => match value.as_integer() {
                Some(i) => StoredArg::I32(sign_extend(low_bits(i, 4), 4) as i32),
                None => {
                    return Err(FfiError::TypeMismatch);
                },
            },
            CType::U32 => match value.as_integer() {
                Some(i) => StoredArg::U32(low_bits(i, 4) as u32),
                None => {
                    return Err(FfiError::TypeMismatch);
                },
            },
            CType::I64 | CType::ISize => match value.as_integer() {
                Some(i) => StoredArg::I64(i),
                None => {
                    return Err(FfiError::TypeMismatch);
                },
            },
            CType::U64 | CType::USize => match value.as_number() {
                Some(n) => StoredArg::U64(double_to_u64(n)),
                None => {
                    return Err(FfiError::TypeMismatch);
                },
            },
            CType::F32 => match value.as_number() {
                Some(n) => StoredArg::F32(double_to_single(n)),
                None => {
                    return Err(FfiError::TypeMismatch);
                },
            },
            CType::F64 => match value.as_number() {
                Some(n) => StoredArg::F64(n),
                None => {
                    return Err(FfiError::TypeMismatch);
                },
            },
            CType::Pointer => match pointer_arg(value) {
                Ok(a) => StoredArg::Ptr(a),
                Err(e) => {
                    return Err(e);
                },
            },
            CType::CString => match value {
                HostValue::String(s) => {
                    if contains_zero(s) {
                        return Err(FfiError::InvalidCString);
                    }
                    match scratch.alloc_cstring(s.as_slice()) {
                        Some(at) => StoredArg::CStr(at),
                        None => {
                            return Err(FfiError::ArenaExhausted);
                        },
                    }
                },
                _ => {
                    return Err(FfiError::TypeMismatch);
                },
            },
        };
        self.keep(stored);
        Ok(())
    }

    /// The number of arguments.
    pub fn len(&self) -> (r: usize)
        ensures
            r == self@.len(),
    {
        self.args.len()
    }

    /// The native value of argument `i`.
    pub fn get(&self, i: usize) -> (r: Option<StoredArg>)
        requires
            self.wf(),
        ensures
            r == if i < self@.len() {
                Some(self@[i as int])
            } else {
                None
            },
    {
        if i >= self.args.len() {
            return None;
        }
        assert(self.in_range(self.args@[i as int]));
        Some(
            match self.args[i] {
                ArgRef::I8(k) => StoredArg::I8(self.i8s[k]),
                ArgRef::U8(k) => StoredArg::U8(self.u8s[k]),
                ArgRef::I16(k) => StoredArg::I16(self.i16s[k]),
                ArgRef::U16(k) => StoredArg::U16(self.u16s[k]),
                ArgRef::I32(k) => StoredArg::I32(self.i32s[k]),
                ArgRef::U32(k) => StoredArg::U32(self.u32s[k]),
                ArgRef::I64(k) => StoredArg::I64(self.i64s[k]),
                ArgRef::U64(k) => StoredArg::U64(self.u64s[k]),
                ArgRef::F32(k) => StoredArg::F32(self.f32s[k]),
                ArgRef::F64(k) => StoredArg::F64(self.f64s[k]),
                ArgRef::Ptr(k) => StoredArg::Ptr(self.ptrs[k]),
                ArgRef::CStr(k) => StoredArg::CStr(self.cstrings[k]),
            },
        )
    }

    /// The native values of the arguments, in call order.
    pub fn as_args(&self) -> (r: Vec<StoredArg>)
        requires
            self.wf(),
        ensures
            r@ == self@,
    {
        let n = self.len();
        let mut out: Vec<StoredArg> = Vec::new();
        let mut i: usize = 0;
        while i < n
            invariant
                self.wf(),
                n == self@.len(),
                i <= n,
                out@ == self@.subrange(0, i as int),
            decreases n - i,
        {
            match self.get(i) {
                Some(a) => {
                    out.push(a);
                },
                None => {},
            }
            assert(out@ =~= self@.subrange(0, i + 1));
            i = i + 1;
        }
        assert(out@ =~= self@);
        out
    }
}

impl View for ArgStorage {
    type V = Seq<StoredArg>;

    closed spec fn view(&self) -> Seq<StoredArg> {
        Seq::new(self.args@.len(), |i: int| self.value_of(self.args@[i]))
    }
}

/// What marshalling has come to: the arguments stored so far, and the bytes
/// and the bytes in use of the scratch arena.
pub struct MarshalState {
    pub stored: Seq<StoredArg>,
    pub bytes: Seq<u8>,
    pub used: int,
}

/// The first `n` arguments marshalled one by one from the state `start`: the
/// state that is reached, and the failure of the first argument that cannot
/// be stored, at which marshalling stops.
pub open spec fn spec_marshal(
    arg_types: Seq<CType>,
    args: Seq<HostValueModel>,
    n: nat,
    start: MarshalState,
) -> (Option<FfiError>, MarshalState)
    decreases n,
{
    if n == 0 {
        (None, start)
    } else {
        let (failed, s) = spec_marshal(arg_types, args, (n - 1) as nat, start);
        if failed is Some {
            (failed, s)
        } else {
            match spec_stored(
                args[n - 1],
                arg_types[n - 1],
                s.used as usize,
                s.bytes.len() as usize,
            ) {
                Err(e) => (Some(e), s),
                Ok(v) => {
                    let after = spec_scratch_after(
                        args[n - 1],
                        arg_types[n - 1],
                        s.used as usize,
                        s.bytes,
                    );
                    (None, MarshalState { stored: s.stored.push(v), bytes: after.0, used: after.1 })
                },
            }
        }
    }
}

/// Once an argument cannot be stored, marshalling more arguments changes
/// nothing.
pub proof fn lemma_marshal_stops(
    arg_types: Seq<CType>,
    args: Seq<HostValueModel>,
    k: nat,
    n: nat,
    start: MarshalState,
)
    requires
        k <= n,
        spec_marshal(arg_types, args, k, start).0 is Some,
    ensures
        spec_marshal(arg_types, args, n, start) == spec_marshal(arg_types, args, k, start),
    decreases n,
{
    if k < n {
        lemma_marshal_stops(arg_types, args, k, (n - 1) as nat, start);
    }
}

/// A native function bound to a signature. The interface is built when the
/// function is bound, not when it is called.
pub struct SmartBoundFunction {
    fn_ptr: usize,
    ret_type: CType,
    arg_types: Vec<CType>,
    cif: CallInterface,
}

impl SmartBoundFunction {
    pub closed spec fn spec_fn_ptr(&self) -> usize {
        self.fn_ptr
    }

    pub closed spec fn spec_ret_type(&self) -> CType {
        self.ret_type
    }

    pub closed spec fn spec_arg_types(&self) -> Seq<CType> {
        self.arg_types@
    }

    pub closed spec fn spec_interface(&self) -> CallInterface {
        self.cif
    }

    /// Whether the function holds the interface of its own signature.
    pub open spec fn wf(&self) -> bool {
        &&& spec_supported(self.spec_arg_types())
        &&& self.spec_interface().spec_built_from(self.spec_arg_types(), self.spec_ret_type())
    }

    /// Binds the function at `fn_ptr` to a signature. A signature that cannot
    /// be called is refused as unsupported.
    pub fn new(fn_ptr: usize, ret_type: CType, arg_types: &Vec<CType>) -> (r: Result<
        Self,
        FfiError,
    >)
        ensures
            match r {
                Ok(f) => {
                    &&& spec_supported(arg_types@)
                    &&& f.wf()
                    &&& f.spec_fn_ptr() == fn_ptr
                    &&& f.spec_ret_type() == ret_type
                    &&& f.spec_arg_types() == arg_types@
                },
                Err(e) => !spec_supported(arg_types@) && e == FfiError::UnsupportedSignature,
            },
    {
        let cif = match CallInterface::new(arg_types, ret_type) {
            Ok(cif) => cif,
            Err(e) => {
                return Err(e);
            },
        };
        let mut types: Vec<CType> = Vec::new();
        let mut i: usize = 0;
        while i < arg_types.len()
            invariant
                i <= arg_types@.len(),
                types@ == arg_types@.subrange(0, i as int),
            decreases arg_types@.len() - i,
        {
            types.push(arg_types[i]);
            assert(types@ =~= arg_types@.subrange(0, i + 1));
            i = i + 1;
        }
        assert(types@ =~= arg_types@);
        Ok(SmartBoundFunction { fn_ptr, ret_type, arg_types: types, cif })
    }

    pub fn fn_ptr(&self) -> (r: usize)
        ensures
            r == self.spec_fn_ptr(),
    {
        self.fn_ptr
    }

    pub fn ret_type(&self) -> (r: CType)
        ensures
            r == self.spec_ret_type(),
    {
        self.ret_type
    }

    pub fn arg_types(&self) -> (r: &Vec<CType>)
        ensures
            r@ == self.spec_arg_types(),
    {
        &self.arg_types
    }

    pub fn interface(&self) -> (r: &CallInterface)
        ensures
            *r == self.spec_interface(),
    {
        &self.cif
    }

    /// A second binding of the same function; its interface is built anew.
    pub fn duplicate(&self) -> (r: Result<Self, FfiError>)
        ensures
            match r {
                Ok(f) => {
                    &&& f.wf()
                    &&& f.spec_fn_ptr() == self.spec_fn_ptr()
                    &&& f.spec_ret_type() == self.spec_ret_type()
                    &&& f.spec_arg_types() == self.spec_arg_types()
                },
                Err(e) => !spec_supported(self.spec_arg_types()) && e
                    == FfiError::UnsupportedSignature,
            },
    {
        SmartBoundFunction::new(self.fn_ptr, self.ret_type, &self.arg_types)
    }

    /// Marshals the arguments of a call into fresh storage, strings going
    /// into the scratch arena. The number of arguments is checked first; then
    /// the arguments are stored one by one, up to the first that cannot be.
    pub fn call_with_args(&self, args: &Vec<HostValue>, scratch: &mut ScratchArena) -> (r: Result<
        ArgStorage,
        FfiError,
    >)
        ensures
            final(scratch).spec_capacity() == old(scratch).spec_capacity(),
            if args@.len() != self.spec_arg_types().len() {
                &&& r is Err
                &&& r->Err_0 == FfiError::ArgumentCountMismatch
                &&& final(scratch).spec_bytes() == old(scratch).spec_bytes()
                &&& final(scratch).spec_used() == old(scratch).spec_used()
            } else {
                let (failed, state) = spec_marshal(
                    self.spec_arg_types(),
                    spec_value_views(args@),
                    args@.len(),
                    MarshalState {
                        stored: Seq::empty(),
                        bytes: old(scratch).spec_bytes(),
                        used: old(scratch).spec_used() as int,
                    },
                );
                &&& final(scratch).spec_bytes() == state.bytes
                &&& final(scratch).spec_used() == state.used
                &&& match failed {
                    Some(e) => r is Err && r->Err_0 == e,
                    None => r is Ok && r->Ok_0.wf() && r->Ok_0@ == state.stored,
                }
            },
    {
        let n = args.len();
        if n != self.arg_types.len() {
            return Err(FfiError::ArgumentCountMismatch);
        }
        let ghost values = spec_value_views(args@);
        let ghost start = MarshalState {
            stored: Seq::empty(),
            bytes: scratch.spec_bytes(),
            used: scratch.spec_used() as int,
        };
        let mut storage = ArgStorage::new();
        let mut i: usize = 0;
        while i < n
            invariant
                n == args@.len(),
                n == self.arg_types@.len(),
                i <= n,
                values == spec_value_views(args@),
                start == (MarshalState {
                    stored: Seq::empty(),
                    bytes: old(scratch).spec_bytes(),
                    used: old(scratch).spec_used() as int,
                }),
                storage.wf(),
                scratch.spec_capacity() == old(scratch).spec_capacity(),
                spec_marshal(self.arg_types@, values, i as nat, start) == (
                    None::<FfiError>,
                    MarshalState {
                        stored: storage@,
                        bytes: scratch.spec_bytes(),
                        used: scratch.spec_used() as int,
                    },
                ),
            decreases n - i,
        {
            proof {
                scratch.lemma_capacity();
                assert(values[i as int] == args@[i as int]@);
            }
            let ghost state = MarshalState {
                stored: storage@,
                bytes: scratch.spec_bytes(),
                used: scratch.spec_used() as int,
            };
            match storage.push(&args[i], self.arg_types[i], scratch) {
                Err(e) => {
                    proof {
                        assert(spec_stored(
                            values[i as int],
                            self.arg_types@[i as int],
                            state.used as usize,
                            state.bytes.len() as usize,
                        ) == Err::<StoredArg, FfiError>(e));
                        assert(spec_marshal(self.arg_types@, values, (i + 1) as nat, start) == (
                            Some(e),
                            state,
                        ));
                        lemma_marshal_stops(
                            self.arg_types@,
                            values,
                            (i + 1) as nat,
                            n as nat,
                            start,
                        );
                    }
                    return Err(e);
                },
                Ok(()) => {},
            }
            i = i + 1;
        }
        Ok(storage)
    }

    /// Turns the raw result of the call into a host value.
    pub fn call_cif(&self, mem: &Memory, raw: u64) -> (r: Result<HostValue, FfiError>)
        requires
            mem.wf(),
        ensures
            match r {
                Ok(v) => spec_convert_return(mem, self.spec_ret_type(), raw) == Ok::<
                    HostValueModel,
                    FfiError,
                >(v@),
                Err(e) => spec_convert_return(mem, self.spec_ret_type(), raw) == Err::<
                    HostValueModel,
                    FfiError,
                >(e),
            },
    {
        call_and_convert(mem, self.ret_type, raw)
    }

    /// Ends a call: the raw result becomes a host value, and the scratch
    /// arena is handed back whole.
    pub fn finish(&self, mem: &Memory, raw: u64, scratch: &mut ScratchArena) -> (r: Result<
        HostValue,
        FfiError,
    >)
        requires
            mem.wf(),
        ensures
            final(scratch).spec_used() == 0,
            final(scratch).spec_capacity() == old(scratch).spec_capacity(),
            final(scratch).spec_bytes() == old(scratch).spec_bytes(),
            match r {
                Ok(v) => spec_convert_return(mem, self.spec_ret_type(), raw) == Ok::<
                    HostValueModel,
                    FfiError,
                >(v@),
                Err(e) => spec_convert_return(mem, self.spec_ret_type(), raw) == Err::<
                    HostValueModel,
                    FfiError,
                >(e),
            },
    {
        let r = self.call_cif(mem, raw);
        scratch.reset();
        r
    }
}

/// A named constant of an interface. A number is carried as the bit pattern
/// of its double.
#[derive(Debug)]
pub enum ConstantValue {
    Integer(i64),
    Number(u64),
    String(String),
    Boolean(bool),
}

impl ConstantValue {
    /// A copy of the constant.
    pub fn duplicate(&self) -> (r: ConstantValue)
        ensures
            r == *self,
    {
        match self {
            ConstantValue::Integer(i) => ConstantValue::Integer(*i),
            ConstantValue::Number(n) => ConstantValue::Number(*n),
            ConstantValue::String(s) => ConstantValue::String(s.clone()),
            ConstantValue::Boolean(b) => ConstantValue::Boolean(*b),
        }
    }
}

/// What an interface says of one name: a function with its signature and
/// the address that its symbol was resolved to (none where the library holds
/// no such symbol), a constant, or anything else.
#[derive(Debug)]
pub enum InterfaceValue {
    Function { ret_type: CType, arg_types: Vec<CType>, address: Option<usize> },
    Constant(ConstantValue),
    Other,
}

/// One entry of an interface.
#[derive(Debug)]
pub struct InterfaceEntry {
    pub name: String,
    pub value: InterfaceValue,
}

/// A bound function under its name.
pub struct NamedFunction {
    pub name: String,
    pub function: SmartBoundFunction,
}

/// A constant under its name.
#[derive(Debug)]
pub struct NamedConstant {
    pub name: String,
    pub value: ConstantValue,
}

/// A library with its interface bound ahead of any call: every function of
/// the interface under its name, and every constant.
pub struct SmartLibrary {
    path: String,
    functions: Vec<NamedFunction>,
    constants: Vec<NamedConstant>,
}

/// What a library holds under a name.
pub enum Member<'a> {
    Constant(&'a ConstantValue),
    Function(&'a SmartBoundFunction),
    Missing,
}

/// Why an entry cannot be bound, if it cannot: a function whose name holds
/// a zero character has no symbol name, one without an address was not found
/// in the library, and one whose signature cannot be called is unsupported.
/// Constants and other entries never fail.
pub open spec fn spec_entry_error(entry: InterfaceEntry) -> Option<FfiError> {
    match entry.value {
        InterfaceValue::Function { ret_type, arg_types, address } => if entry.name@.contains(
            '\0',
        ) {
            Some(FfiError::InvalidCString)
        } else if address is None {
            Some(FfiError::SymbolNotFound)
        } else if !spec_supported(arg_types@) {
            Some(FfiError::UnsupportedSignature)
        } else {
            None
        },
        _ => None,
    }
}

/// The failure of the first of the first `n` entries that cannot be bound.
pub open spec fn spec_first_error(entries: Seq<InterfaceEntry>, n: nat) -> Option<FfiError>
    decreases n,
{
    if n == 0 {
        None
    } else if spec_first_error(entries, (n - 1) as nat) is Some {
        spec_first_error(entries, (n - 1) as nat)
    } else {
        spec_entry_error(entries[n - 1])
    }
}

/// The positions of the functions among the first `n` entries, in order.
pub open spec fn spec_function_entries(entries: Seq<InterfaceEntry>, n: nat) -> Seq<int>
    decreases n,
{
    if n == 0 {
        Seq::empty()
    } else if entries[n - 1].value is Function {
        spec_function_entries(entries, (n - 1) as nat).push(n - 1)
    } else {
        spec_function_entries(entries, (n - 1) as nat)
    }
}

/// The positions of the constants among the first `n` entries, in order.
pub open spec fn spec_constant_entries(entries: Seq<InterfaceEntry>, n: nat) -> Seq<int>
    decreases n,
{
    if n == 0 {
        Seq::empty()
    } else if entries[n - 1].value is Constant {
        spec_constant_entries(entries, (n - 1) as nat).push(n - 1)
    } else {
        spec_constant_entries(entries, (n - 1) as nat)
    }
}

/// The last position in `names` that holds `name`.
pub open spec fn spec_last_named(names: Seq<Seq<char>>, name: Seq<char>) -> Option<int>
    decreases names.len(),
{
    if names.len() == 0 {
        None
    } else if names.last() == name {
        Some(names.len() - 1)
    } else {
        spec_last_named(names.drop_last(), name)
    }
}

/// Once an entry cannot be bound, that failure stays the first.
pub proof fn lemma_first_error_stays(entries: Seq<InterfaceEntry>, k: nat, n: nat)
    requires
        k <= n,
        spec_first_error(entries, k) is Some,
    ensures
        spec_first_error(entries, n) == spec_first_error(entries, k),
    decreases n,
{
    if k < n {
        lemma_first_error_stays(entries, k, (n - 1) as nat);
    }
}

fn has_zero_char(name: &str) -> (r: bool)
    ensures
        r == name@.contains('\0'),
{
    let n = name.unicode_len();
    let mut i: usize = 0;
    while i < n
        invariant
            n == name@.len(),
            i <= n,
            forall|j: int| 0 <= j < i ==> name@[j] != '\0',
        decreases n - i,
    {
        if name.get_char(i) == '\0' {
            assert(name@[i as int] == '\0');
            return true;
        }
        i = i + 1;
    }
    false
}

impl SmartLibrary {
    pub closed spec fn spec_path(&self) -> Seq<char> {
        self.path@
    }

    pub closed spec fn spec_functions(&self) -> Seq<NamedFunction> {
        self.functions@
    }

    pub closed spec fn spec_constants(&self) -> Seq<NamedConstant> {
        self.constants@
    }

    pub open spec fn spec_function_names(&self) -> Seq<Seq<char>> {
        Seq::new(self.spec_functions().len(), |i: int| self.spec_functions()[i].name@)
    }

    pub open spec fn spec_constant_names(&self) -> Seq<Seq<char>> {
        Seq::new(self.spec_constants().len(), |i: int| self.spec_constants()[i].name@)
    }

    /// Whether the library holds the functions and constants of the
    /// interface, each group in the order of the entries, every function
    /// bound to the address and signature of its entry.
    pub open spec fn spec_holds(&self, entries: Seq<InterfaceEntry>) -> bool {
        let fs = spec_function_entries(entries, entries.len());
        let cs = spec_constant_entries(entries, entries.len());
        &&& self.spec_functions().len() == fs.len()
        &&& self.spec_constants().len() == cs.len()
        &&& forall|k: int|
            0 <= k < fs.len() ==> {
                let e = entries[fs[k]];
                let f = #[trigger] self.spec_functions()[k];
                &&& f.name@ == e.name@
                &&& f.function.wf()
                &&& Some(f.function.spec_fn_ptr()) == e.value->Function_address
                &&& f.function.spec_ret_type() == e.value->Function_ret_type
                &&& f.function.spec_arg_types() == e.value->Function_arg_types@
            }
        &&& forall|k: int|
            0 <= k < cs.len() ==> {
                let e = entries[cs[k]];
                let c = #[trigger] self.spec_constants()[k];
                &&& c.name@ == e.name@
                &&& c.value == e.value->Constant_0
            }
    }

    /// Binds the interface of a library: every function entry is bound to
    /// its address and signature, every constant is kept, and any other entry
    /// is passed over. The first entry that cannot be bound fails the whole
    /// interface.
    pub fn from_interface(path: String, interface: &Vec<InterfaceEntry>) -> (r: Result<
        SmartLibrary,
        FfiError,
    >)
        ensures
            match r {
                Ok(lib) => spec_first_error(interface@, interface@.len()) is None
                    && lib.spec_path() == path@ && lib.spec_holds(interface@),
                Err(e) => spec_first_error(interface@, interface@.len()) == Some(e),
            },
    {
        let n = interface.len();
        let mut functions: Vec<NamedFunction> = Vec::new();
        let mut constants: Vec<NamedConstant> = Vec::new();
        let mut i: usize = 0;
        while i < n
            invariant
                n == interface@.len(),
                i <= n,
                spec_first_error(interface@, i as nat) is None,
                functions@.len() == spec_function_entries(interface@, i as nat).len(),
                constants@.len() == spec_constant_entries(interface@, i as nat).len(),
                forall|k: int|
                    0 <= k < functions@.len() ==> {
                        let e = interface@[spec_function_entries(interface@, i as nat)[k]];
                        let f = #[trigger] functions@[k];
                        &&& f.name@ == e.name@
                        &&& f.function.wf()
                        &&& Some(f.function.spec_fn_ptr()) == e.value->Function_address
                        &&& f.function.spec_ret_type() == e.value->Function_ret_type
                        &&& f.function.spec_arg_types() == e.value->Function_arg_types@
                    },
                forall|k: int|
                    0 <= k < constants@.len() ==> {
                        let e = interface@[spec_constant_entries(interface@, i as nat)[k]];
                        let c = #[trigger] constants@[k];
                        &&& c.name@ == e.name@
                        &&& c.value == e.value->Constant_0
                    },
            decreases n - i,
        {
            let entry = &interface[i];
            match &entry.value {
                InterfaceValue::Function { ret_type, arg_types, address } => {
                    let bound = if has_zero_char(entry.name.as_str()) {
                        Err(FfiError::InvalidCString)
                    } else {
                        match address {
                            None => Err(FfiError::SymbolNotFound),
                            Some(fn_ptr) => SmartBoundFunction::new(
                                *fn_ptr,
                                *ret_type,
                                arg_types,
                            ),
                        }
                    };
                    match bound {
                        Err(e) => {
                            proof {
                                assert(spec_entry_error(interface@[i as int]) == Some(e));
                                lemma_first_error_stays(interface@, (i + 1) as nat, n as nat);
                            }
                            return Err(e);
                        },
                        Ok(function) => {
                            functions.push(NamedFunction { name: entry.name.clone(), function });
                        },
                    }
                },
                InterfaceValue::Constant(value) => {
                    constants.push(
                        NamedConstant { name: entry.name.clone(), value: value.duplicate() },
                    );
                },
                InterfaceValue::Other => {},
            }
            i = i + 1;
        }
        Ok(SmartLibrary { path, functions, constants })
    }

    pub fn path(&self) -> (r: &str)
        ensures
            r@ == self.spec_path(),
    {
        self.path.as_str()
    }

    /// The number of bound functions.
    pub fn function_count(&self) -> (r: usize)
        ensures
            r == self.spec_functions().len(),
    {
        self.functions.len()
    }

    /// The number of constants.
    pub fn constant_count(&self) -> (r: usize)
        ensures
            r == self.spec_constants().len(),
    {
        self.constants.len()
    }

    /// What the library holds under `name`: a constant of that name before
    /// a function of that name, and of several of one name the last.
    pub fn get(&self, name: &str) -> (r: Member<'_>)
        ensures
            match spec_last_named(self.spec_constant_names(), name@) {
                Some(k) => r == Member::Constant(&self.spec_constants()[k].value),
                None => match spec_last_named(self.spec_function_names(), name@) {
                    Some(k) => r == Member::Function(&self.spec_functions()[k].function),
                    None => r == Member::<'_>::Missing,
                },
            },
    {
        let ghost cnames = self.spec_constant_names();
        let mut i: usize = self.constants.len();
        assert(cnames.subrange(0, i as int) =~= cnames);
        while i > 0
            invariant
                i <= self.constants@.len(),
                cnames == self.spec_constant_names(),
                spec_last_named(cnames, name@) == spec_last_named(
                    cnames.subrange(0, i as int),
                    name@,
                ),
            decreases i,
        {
            proof {
                let prefix = cnames.subrange(0, i as int);
                assert(prefix.last() == self.constants@[i - 1].name@);
                assert(prefix.drop_last() =~= cnames.subrange(0, i - 1));
            }
            if same(self.constants[i - 1].name.as_str(), name) {
                return Member::Constant(&self.constants[i - 1].value);
            }
            i = i - 1;
        }
        let ghost fnames = self.spec_function_names();
        let mut j: usize = self.functions.len();
        assert(fnames.subrange(0, j as int) =~= fnames);
        while j > 0
            invariant
                j <= self.functions@.len(),
                fnames == self.spec_function_names(),
                spec_last_named(self.spec_constant_names(), name@) is None,
                spec_last_named(fnames, name@) == spec_last_named(
                    fnames.subrange(0, j as int),
                    name@,
                ),
            decreases j,
        {
            proof {
                let prefix = fnames.subrange(0, j as int);
                assert(prefix.last() == self.functions@[j - 1].name@);
                assert(prefix.drop_last() =~= fnames.subrange(0, j - 1));
            }
            if same(self.functions[j - 1].name.as_str(), name) {
                return Member::Function(&self.functions[j - 1].function);
            }
            j = j - 1;
        }
        Member::Missing
    }
}

} // verus!
