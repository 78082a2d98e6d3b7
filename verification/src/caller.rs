//! Dynamic calls: the interface of a native function put together from a
//! list of types, host values turned into native arguments, and the native
//! result turned back into a host value.
//!
//! The call itself is made by the host of this library. `dynamic_call`
//! checks and converts everything that goes in and hands back a pending
//! call; the host invokes the function and gives the raw result to
//! `PendingCall::finish`.

use vstd::prelude::*;
use crate::codec::{decode_value, low_bytes, spec_decode};
use crate::endian::{low_bits, sign_extend, spec_le_bytes, spec_low, spec_wrap_signed};
use crate::errors::FfiError;
use crate::ieee::{
    double_to_single, double_to_u64, spec_double_to_single, spec_double_to_u64,
};
use crate::memory::Memory;
use crate::types::CType;
use crate::value::{HostValue, HostValueModel};

verus! {

/// The most arguments that a call or a callback can have.
pub const MAX_ARGUMENTS: usize = 16;

/// How a value travels in a native call: the basic types of the platform's
/// calling convention.
#[derive(Debug, Clone, Copy, PartialEq, Eq, Structural)]
pub enum FfiType {
    Void,
    SInt8,
    UInt8,
    SInt16,
    UInt16,
    SInt32,
    UInt32,
    SInt64,
    UInt64,
    Float,
    Double,
    Pointer,
}

/// The type that a value of type `ctype` travels as. A boolean travels as a
/// signed byte, the word-sized integers as 64-bit ones, and a string as a
/// pointer.
pub open spec fn spec_ctype_to_ffi(ctype: CType) -> FfiType {
    match ctype {
        CType::Void => FfiType::Void,
        CType::Bool | CType::I8 => FfiType::SInt8,
        CType::U8 => FfiType::UInt8,
        CType::I16 => FfiType::SInt16,
        CType::U16 => FfiType::UInt16,
        CType::I32 => FfiType::SInt32,
        CType::U32 => FfiType::UInt32,
        CType::I64 | CType::ISize => FfiType::SInt64,
        CType::U64 | CType::USize => FfiType::UInt64,
        CType::F32 => FfiType::Float,
        CType::F64 => FfiType::Double,
        CType::Pointer | CType::CString => FfiType::Pointer,
    }
}

pub fn ctype_to_ffi(ctype: CType) -> (r: FfiType)
    ensures
        r == spec_ctype_to_ffi(ctype),
{
    match ctype {
        CType::Void => FfiType::Void,
        CType::Bool | CType::I8 => FfiType::SInt8,
        CType::U8 => FfiType::UInt8,
        CType::I16 => FfiType::SInt16,
        CType::U16 => FfiType::UInt16,
        CType::I32 => FfiType::SInt32,
        CType::U32 => FfiType::UInt32,
        CType::I64 | CType::ISize => FfiType::SInt64,
        CType::U64 | CType::USize => FfiType::UInt64,
        CType::F32 => FfiType::Float,
        CType::F64 => FfiType::Double,
        CType::Pointer | CType::CString => FfiType::Pointer,
    }
}

/// The interface of a native function: the types of its arguments and of
/// its result, and how each of them travels. It does not change once built.
#[derive(Debug)]
pub struct CallInterface {
    arg_types: Vec<CType>,
    ret_type: CType,
    ffi_args: Vec<FfiType>,
    ffi_ret: FfiType,
}

/// Whether a function of these argument types can be called: there are at
/// most 16 of them and none is `Void`.
pub open spec fn spec_supported(arg_types: Seq<CType>) -> bool {
    &&& arg_types.len() <= MAX_ARGUMENTS
    &&& forall|i: int| 0 <= i < arg_types.len() ==> arg_types[i] != CType::Void
}

impl CallInterface {
    #[verifier::type_invariant]
    spec fn inv(self) -> bool {
        &&& spec_supported(self.arg_types@)
        &&& self.ffi_args@ == self.arg_types@.map_values(|t: CType| spec_ctype_to_ffi(t))
        &&& self.ffi_ret == spec_ctype_to_ffi(self.ret_type)
    }

    pub closed spec fn spec_arg_types(&self) -> Seq<CType> {
        self.arg_types@
    }

    pub closed spec fn spec_ret_type(&self) -> CType {
        self.ret_type
    }

    pub closed spec fn spec_ffi_args(&self) -> Seq<FfiType> {
        self.ffi_args@
    }

    pub closed spec fn spec_ffi_ret(&self) -> FfiType {
        self.ffi_ret
    }

    /// Whether the interface is that of the given types.
    pub open spec fn spec_built_from(&self, arg_types: Seq<CType>, ret_type: CType) -> bool {
        &&& self.spec_arg_types() == arg_types
        &&& self.spec_ret_type() == ret_type
        &&& self.spec_ffi_args() == arg_types.map_values(|t: CType| spec_ctype_to_ffi(t))
        &&& self.spec_ffi_ret() == spec_ctype_to_ffi(ret_type)
    }

    /// Builds the interface of a function from the types of its arguments
    /// and of its result. A signature that cannot be called is refused as
    /// unsupported.
    pub fn new(arg_types: &Vec<CType>, ret_type: CType) -> (r: Result<CallInterface, FfiError>)
        ensures
            match r {
                Ok(ci) => spec_supported(arg_types@) && ci.spec_built_from(arg_types@, ret_type),
                Err(e) => !spec_supported(arg_types@) && e == FfiError::UnsupportedSignature,
            },
    {
        let n = arg_types.len();
        if n > MAX_ARGUMENTS {
            return Err(FfiError::UnsupportedSignature);
        }
        let mut types: Vec<CType> = Vec::new();
        let mut ffi_args: Vec<FfiType> = Vec::new();
        let mut i: usize = 0;
        while i < n
            invariant
                n == arg_types@.len(),
                i <= n,
                types@.len() == i,
                ffi_args@.len() == i,
                forall|j: int| 0 <= j < i ==> arg_types@[j] != CType::Void,
                forall|j: int| 0 <= j < i ==> types@[j] == arg_types@[j],
                forall|j: int| 0 <= j < i ==> ffi_args@[j] == spec_ctype_to_ffi(arg_types@[j]),
            decreases n - i,
        {
            let t = arg_types[i];
            if t == CType::Void {
                return Err(FfiError::UnsupportedSignature);
            }
            types.push(t);
            ffi_args.push(ctype_to_ffi(t));
            i = i + 1;
        }
        assert(types@ =~= arg_types@);
        assert(ffi_args@ =~= arg_types@.map_values(|t: CType| spec_ctype_to_ffi(t)));
        Ok(CallInterface { arg_types: types, ret_type, ffi_args, ffi_ret: ctype_to_ffi(ret_type) })
    }

    /// An interface, once built, is that of its own signature, and the
    /// signature can be called.
    pub fn check(&self)
        ensures
            spec_supported(self.spec_arg_types()),
            self.spec_built_from(self.spec_arg_types(), self.spec_ret_type()),
    {
        proof {
            use_type_invariant(self);
        }
    }

    /// A second interface of the same signature.
    pub fn duplicate(&self) -> (r: CallInterface)
        ensures
            r.spec_built_from(self.spec_arg_types(), self.spec_ret_type()),
    {
        proof {
            use_type_invariant(self);
        }
        let mut types: Vec<CType> = Vec::new();
        let mut ffi_args: Vec<FfiType> = Vec::new();
        let n = self.arg_types.len();
        let mut i: usize = 0;
        while i < n
            invariant
                n == self.arg_types@.len(),
                n == self.ffi_args@.len(),
                i <= n,
                types@ == self.arg_types@.subrange(0, i as int),
                ffi_args@ == self.ffi_args@.subrange(0, i as int),
            decreases n - i,
        {
            types.push(self.arg_types[i]);
            ffi_args.push(self.ffi_args[i]);
            assert(types@ =~= self.arg_types@.subrange(0, i + 1));
            assert(ffi_args@ =~= self.ffi_args@.subrange(0, i + 1));
            i = i + 1;
        }
        assert(types@ =~= self.arg_types@);
        assert(ffi_args@ =~= self.ffi_args@);
        CallInterface { arg_types: types, ret_type: self.ret_type, ffi_args, ffi_ret: self.ffi_ret }
    }

    pub fn arg_types(&self) -> (r: &Vec<CType>)
        ensures
            r@ == self.spec_arg_types(),
    {
        &self.arg_types
    }

    pub fn ret_type(&self) -> (r: CType)
        ensures
            r == self.spec_ret_type(),
    {
        self.ret_type
    }

    /// How each argument travels.
    pub fn ffi_args(&self) -> (r: &Vec<FfiType>)
        ensures
            r@ == self.spec_ffi_args(),
    {
        &self.ffi_args
    }

    /// How the result travels.
    pub fn ffi_ret(&self) -> (r: FfiType)
        ensures
            r == self.spec_ffi_ret(),
    {
        self.ffi_ret
    }
}

/// A native argument: the value that is handed to the function. A float is
/// carried as its bit pattern, a string as its bytes with the terminating
/// zero.
#[derive(Debug)]
pub enum ArgValue {
    Bool(bool),
    I8(i8),
    U8(u8),
    I16(i16),
    U16(u16),
    I32(i32),
    U32(u32),
    I64(i64),
    U64(u64),
    F32(u32),
    F64(u64),
    Pointer(usize),
    CStringVal(Vec<u8>),
}

/// A native argument as contracts speak of it.
pub enum ArgValueModel {
    Bool(bool),
    I8(i8),
    U8(u8),
    I16(i16),
    U16(u16),
    I32(i32),
    U32(u32),
    I64(i64),
    U64(u64),
    F32(u32),
    F64(u64),
    Pointer(usize),
    CStringVal(Seq<u8>),
}

impl View for ArgValue {
    type V = ArgValueModel;

    open spec fn view(&self) -> ArgValueModel {
        match self {
            ArgValue::Bool(v) => ArgValueModel::Bool(*v),
            ArgValue::I8(v) => ArgValueModel::I8(*v),
            ArgValue::U8(v) => ArgValueModel::U8(*v),
            ArgValue::I16(v) => ArgValueModel::I16(*v),
            ArgValue::U16(v) => ArgValueModel::U16(*v),
            ArgValue::I32(v) => ArgValueModel::I32(*v),
            ArgValue::U32(v) => ArgValueModel::U32(*v),
            ArgValue::I64(v) => ArgValueModel::I64(*v),
            ArgValue::U64(v) => ArgValueModel::U64(*v),
            ArgValue::F32(v) => ArgValueModel::F32(*v),
            ArgValue::F64(v) => ArgValueModel::F64(*v),
            ArgValue::Pointer(v) => ArgValueModel::Pointer(*v),
            ArgValue::CStringVal(v) => ArgValueModel::CStringVal(v@),
        }
    }
}

/// A `u64` held to the range of `usize`.
pub open spec fn spec_saturate(v: u64) -> usize {
    if v > usize::MAX {
        usize::MAX
    } else {
        v as usize
    }
}

/// The address that a host value stands for as a pointer argument: null for
/// nil, the address of an address value or of a buffer, and a number taken as
/// an address. Nothing else is a pointer.
pub open spec fn spec_pointer_arg(value: HostValueModel) -> Result<usize, FfiError> {
    match value {
        HostValueModel::Nil => Ok(0),
        HostValueModel::Address(a) => Ok(a),
        HostValueModel::Buffer { addr, len } => Ok(addr),
        HostValueModel::Integer(i) => Ok(i as usize),
        HostValueModel::Number(n) => Ok(spec_saturate(spec_double_to_u64(n))),
        _ => Err(FfiError::TypeMismatch),
    }
}

/// The native string of a host value: its bytes with a zero after them. Only
/// a string is one, and one with a zero byte inside is refused.
pub open spec fn spec_string_arg(value: HostValueModel) -> Result<Seq<u8>, FfiError> {
    match value {
        HostValueModel::String(s) => if s.contains(0u8) {
            Err(FfiError::InvalidCString)
        } else {
            Ok(s.push(0u8))
        },
        _ => Err(FfiError::TypeMismatch),
    }
}

/// The native argument that `value` becomes for a parameter of type `ctype`.
///
/// An integer parameter takes the value as a 64-bit integer and keeps its
/// low bytes in two's complement. A `U64` or `USize` parameter takes the value
/// as a number,
/// rounded toward zero and held to the range, `F32` the nearest single.
/// `Void` is no parameter type.
pub open spec fn spec_lua_to_arg(value: HostValueModel, ctype: CType) -> Result<
    ArgValueModel,
    FfiError,
> {
    match ctype {
        CType::Void => Err(FfiError::UnsupportedSignature),
        CType::Bool => Ok(ArgValueModel::Bool(value.truthy())),
        CType::I8 => match value.as_integer() {
            Some(i) => Ok(ArgValueModel::I8(spec_wrap_signed(i as int, 1) as i8)),
            None => Err(FfiError::TypeMismatch),
        },
        CType::U8 => match value.as_integer() {
            Some(i) => Ok(ArgValueModel::U8(spec_low(i as int, 1) as u8)),
            None => Err(FfiError::TypeMismatch),
        },
        CType::I16 => match value.as_integer() {
            Some(i) => Ok(ArgValueModel::I16(spec_wrap_signed(i as int, 2) as i16)),
            None => Err(FfiError::TypeMismatch),
        },
        CType::U16 => match value.as_integer() {
            Some(i) => Ok(ArgValueModel::U16(spec_low(i as int, 2) as u16)),
            None => Err(FfiError::TypeMismatch),
        },
        CType::I32 => match value.as_integer() {
            Some(i) => Ok(ArgValueModel::I32(spec_wrap_signed(i as int, 4) as i32)),
            None => Err(FfiError::TypeMismatch),
        },
        CType::U32 => match value.as_integer() {
            Some(i) => Ok(ArgValueModel::U32(spec_low(i as int, 4) as u32)),
            None => Err(FfiError::TypeMismatch),
        },
        CType::I64 | CType::ISize => match value.as_integer() {
            Some(i) => Ok(ArgValueModel::I64(i)),
            None => Err(FfiError::TypeMismatch),
        },
        CType::U64 | CType::USize => match value.as_number() {
            Some(n) => Ok(ArgValueModel::U64(spec_double_to_u64(n))),
            None => Err(FfiError::TypeMismatch),
        },
        CType::F32 => match value.as_number() {
            Some(n) => Ok(ArgValueModel::F32(spec_double_to_single(n))),
            None => Err(FfiError::TypeMismatch),
        },
        CType::F64 => match value.as_number() {
            Some(n) => Ok(ArgValueModel::F64(n)),
            None => Err(FfiError::TypeMismatch),
        },
        CType::Pointer => match spec_pointer_arg(value) {
            Ok(a) => Ok(ArgValueModel::Pointer(a)),
            Err(e) => Err(e),
        },
        CType::CString => match spec_string_arg(value) {
            Ok(s) => Ok(ArgValueModel::CStringVal(s)),
            Err(e) => Err(e),
        },
    }
}

/// The address that a host value stands for as a pointer argument.
pub fn pointer_arg(value: &HostValue) -> (r: Result<usize, FfiError>)
    ensures
        r == spec_pointer_arg(value@),
{
    match value {
        HostValue::Nil => Ok(0),
        HostValue::Address(a) => Ok(*a),
        HostValue::Buffer { addr, len } => Ok(*addr),
        HostValue::Integer(i) => Ok(
            #[verifier::truncate]
            (*i as usize),
        ),
        HostValue::Number(n) => {
            let v = double_to_u64(*n);
            if v > usize::MAX as u64 {
                Ok(usize::MAX)
            } else {
                Ok(v as usize)
            }
        },
        _ => Err(FfiError::TypeMismatch),
    }
}

/// The native string of a host value: its bytes with a zero after them.
pub fn string_arg(value: &HostValue) -> (r: Result<Vec<u8>, FfiError>)
    ensures
        match r {
            Ok(v) => spec_string_arg(value@) == Ok::<Seq<u8>, FfiError>(v@),
            Err(e) => spec_string_arg(value@) == Err::<Seq<u8>, FfiError>(e),
        },
{
    match value {
        HostValue::String(s) => {
            let mut out: Vec<u8> = Vec::new();
            let mut i: usize = 0;
            while i < s.len()
                invariant
                    value@ == HostValueModel::String(s@),
                    i <= s@.len(),
                    out@ == s@.subrange(0, i as int),
                    forall|j: int| 0 <= j < i ==> s@[j] != 0,
                decreases s@.len() - i,
            {
                if s[i] == 0 {
                    assert(s@[i as int] == 0u8);
                    assert(s@.contains(0u8));
                    return Err(FfiError::InvalidCString);
                }
                out.push(s[i]);
                assert(out@ =~= s@.subrange(0, i + 1));
                i = i + 1;
            }
            assert(out@ =~= s@);
            assert(!s@.contains(0u8));
            out.push(0);
            Ok(out)
        },
        _ => Err(FfiError::TypeMismatch),
    }
}

/// Turns a host value into the native argument for a parameter of type
/// `ctype`.
pub fn lua_to_arg(value: &HostValue, ctype: CType) -> (r: Result<ArgValue, FfiError>)
    ensures
        match r {
            Ok(a) => spec_lua_to_arg(value@, ctype) == Ok::<ArgValueModel, FfiError>(a@),
            Err(e) => spec_lua_to_arg(value@, ctype) == Err::<ArgValueModel, FfiError>(e),
        },
{
    proof {
        crate::endian::lemma_pow256();
    }
    match ctype {
        CType::Void => Err(FfiError::UnsupportedSignature),
        CType::Bool => Ok(ArgValue::Bool(value.truthy())),
        CType::I8 => match value.as_integer() {
            Some(i) => Ok(ArgValue::I8(sign_extend(low_bits(i, 1), 1) as i8)),
            None => Err(FfiError::TypeMismatch),
        },
        CType::U8 => match value.as_integer() {
            Some(i) => Ok(ArgValue::U8(low_bits(i, 1) as u8)),
            None => Err(FfiError::TypeMismatch),
        },
        CType::I16 => match value.as_integer() {
            Some(i) => Ok(ArgValue::I16(sign_extend(low_bits(i, 2), 2) as i16)),
            None => Err(FfiError::TypeMismatch),
        },
        CType::U16 => match value.as_integer() {
            Some(i) => Ok(ArgValue::U16(low_bits(i, 2) as u16)),
            None => Err(FfiError::TypeMismatch),
        },
        CType::I32 => match value.as_integer() {
            Some(i) => Ok(ArgValue::I32(sign_extend(low_bits(i, 4), 4) as i32)),
            None => Err(FfiError::TypeMismatch),
        },
        CType::U32 => match value.as_integer() {
            Some(i) => Ok(ArgValue::U32(low_bits(i, 4) as u32)),
            None => Err(FfiError::TypeMismatch),
        },
        CType::I64 | CType::ISize => match value.as_integer() {
            Some(i) => Ok(ArgValue::I64(i)),
            None => Err(FfiError::TypeMismatch),
        },
        CType::U64 | CType::USize => match value.as_number() {
            Some(n) => Ok(ArgValue::U64(double_to_u64(n))),
            None => Err(FfiError::TypeMismatch),
        },
        CType::F32 => match value.as_number() {
            Some(n) => Ok(ArgValue::F32(double_to_single(n))),
            None => Err(FfiError::TypeMismatch),
        },
        CType::F64 => match value.as_number() {
            Some(n) => Ok(ArgValue::F64(n)),
            None => Err(FfiError::TypeMismatch),
        },
        CType::Pointer => match pointer_arg(value) {
            Ok(a) => Ok(ArgValue::Pointer(a)),
            Err(e) => Err(e),
        },
        CType::CString => match string_arg(value) {
            Ok(s) => Ok(ArgValue::CStringVal(s)),
            Err(e) => Err(e),
        },
    }
}

/// The host value of a native result: what the low bytes of the raw result
/// stand for as a value of type `ret_type`, and for a string result that is
/// not null the zero-terminated string found at the address. `Void` gives
/// nil. A string that is not mapped up to its terminator is out of bounds.
pub open spec fn spec_convert_return(mem: &Memory, ret_type: CType, raw: u64) -> Result<
    HostValueModel,
    FfiError,
> {
    let v = spec_decode(ret_type, spec_le_bytes(raw as nat, ret_type.spec_size()));
    if ret_type == CType::CString && v is Address {
        match mem.spec_c_string(v->Address_0 as int) {
            Some(s) => Ok(HostValueModel::String(s)),
            None => Err(FfiError::OutOfBounds),
        }
    } else {
        Ok(v)
    }
}

/// Turns the raw result of a native call into a host value. `raw` is the
/// result as the function left it: the value in its low bytes.
pub fn call_and_convert(mem: &Memory, ret_type: CType, raw: u64) -> (r: Result<
    HostValue,
    FfiError,
>)
    requires
        mem.wf(),
    ensures
        match r {
            Ok(v) => spec_convert_return(mem, ret_type, raw) == Ok::<HostValueModel, FfiError>(
                v@,
            ),
            Err(e) => spec_convert_return(mem, ret_type, raw) == Err::<HostValueModel, FfiError>(
                e,
            ),
        },
{
    let slot = low_bytes(raw, ret_type.size());
    let v = decode_value(ret_type, slot.as_slice());
    match ret_type {
        CType::CString => match v {
            HostValue::Address(p) => match mem.c_string_at(p) {
                Some(s) => Ok(HostValue::String(s)),
                None => Err(FfiError::OutOfBounds),
            },
            _ => Ok(v),
        },
        _ => Ok(v),
    }
}

/// A call that is ready to be made: the function, its interface and its
/// native arguments in order.
#[derive(Debug)]
pub struct PendingCall {
    pub fn_ptr: usize,
    pub interface: CallInterface,
    pub args: Vec<ArgValue>,
}

/// What marshalling the arguments of a call gives: the native arguments in
/// order, or the first failure. The number of arguments is checked first,
/// then the arguments are converted one by one.
pub open spec fn spec_call(arg_types: Seq<CType>, args: Seq<HostValueModel>) -> Result<
    Seq<ArgValueModel>,
    FfiError,
> {
    if args.len() != arg_types.len() {
        Err(FfiError::ArgumentCountMismatch)
    } else {
        spec_convert_args(arg_types, args, args.len())
    }
}

/// What preparing a call from a signature gives: the native arguments in
/// order, or the first failure. The number of arguments is checked first,
/// then the signature, then the arguments one by one.
pub open spec fn spec_dynamic_call(arg_types: Seq<CType>, args: Seq<HostValueModel>) -> Result<
    Seq<ArgValueModel>,
    FfiError,
> {
    if args.len() != arg_types.len() {
        Err(FfiError::ArgumentCountMismatch)
    } else if !spec_supported(arg_types) {
        Err(FfiError::UnsupportedSignature)
    } else {
        spec_call(arg_types, args)
    }
}

/// The first `n` arguments converted, or the failure of the first one that
/// cannot be.
pub open spec fn spec_convert_args(arg_types: Seq<CType>, args: Seq<HostValueModel>, n: nat) -> Result<
    Seq<ArgValueModel>,
    FfiError,
>
    decreases n,
{
    if n == 0 {
        Ok(Seq::empty())
    } else {
        match spec_convert_args(arg_types, args, (n - 1) as nat) {
            Err(e) => Err(e),
            Ok(done) => match spec_lua_to_arg(args[n - 1], arg_types[n - 1]) {
                Err(e) => Err(e),
                Ok(a) => Ok(done.push(a)),
            },
        }
    }
}

/// The native arguments of a list of `ArgValue`s.
pub open spec fn spec_arg_views(args: Seq<ArgValue>) -> Seq<ArgValueModel> {
    Seq::new(args.len(), |i: int| args[i]@)
}

/// The host values of a list.
pub open spec fn spec_value_views(values: Seq<HostValue>) -> Seq<HostValueModel> {
    Seq::new(values.len(), |i: int| values[i]@)
}

impl CallInterface {
    /// Prepares a call of the function at `fn_ptr` through this interface:
    /// the host arguments are counted and turned into native ones. Nothing is
    /// invoked: the pending call that comes back holds what the host needs to
    /// make the call, exactly once.
    pub fn call(&self, fn_ptr: usize, args: &Vec<HostValue>) -> (r: Result<PendingCall, FfiError>)
        ensures
            match r {
                Ok(call) => {
                    &&& call.fn_ptr == fn_ptr
                    &&& call.interface.spec_built_from(
                        self.spec_arg_types(),
                        self.spec_ret_type(),
                    )
                    &&& spec_call(self.spec_arg_types(), spec_value_views(args@)) == Ok::<
                        Seq<ArgValueModel>,
                        FfiError,
                    >(spec_arg_views(call.args@))
                },
                Err(e) => spec_call(self.spec_arg_types(), spec_value_views(args@)) == Err::<
                    Seq<ArgValueModel>,
                    FfiError,
                >(e),
            },
    {
        if args.len() != self.arg_types.len() {
            return Err(FfiError::ArgumentCountMismatch);
        }
        let ghost values = spec_value_views(args@);
        let n = args.len();
        let mut converted: Vec<ArgValue> = Vec::new();
        let mut i: usize = 0;
        assert(spec_arg_views(converted@) =~= Seq::<ArgValueModel>::empty());
        while i < n
            invariant
                n == args@.len(),
                n == self.arg_types@.len(),
                i <= n,
                values == spec_value_views(args@),
                converted@.len() == i,
                spec_convert_args(self.arg_types@, values, i as nat) == Ok::<
                    Seq<ArgValueModel>,
                    FfiError,
                >(spec_arg_views(converted@)),
            decreases n - i,
        {
            let ghost before = spec_arg_views(converted@);
            assert(values[i as int] == args@[i as int]@);
            match lua_to_arg(&args[i], self.arg_types[i]) {
                Err(e) => {
                    proof {
                        assert(spec_convert_args(self.arg_types@, values, (i + 1) as nat) == Err::<
                            Seq<ArgValueModel>,
                            FfiError,
                        >(e));
                        lemma_convert_args_fails(self.arg_types@, values, (i + 1) as nat, n as nat);
                        assert(values.len() == n);
                    }
                    return Err(e);
                },
                Ok(a) => {
                    converted.push(a);
                    assert(spec_arg_views(converted@) =~= before.push(a@));
                },
            }
            i = i + 1;
        }
        Ok(PendingCall { fn_ptr, interface: self.duplicate(), args: converted })
    }
}

/// Prepares a call of the function at `fn_ptr` with the given signature and
/// host arguments: builds the interface and marshals the arguments through
/// it. Nothing is invoked.
pub fn dynamic_call(fn_ptr: usize, ret_type: CType, arg_types: &Vec<CType>, args: &Vec<
    HostValue,
>) -> (r: Result<PendingCall, FfiError>)
    ensures
        match r {
            Ok(call) => {
                &&& call.fn_ptr == fn_ptr
                &&& call.interface.spec_built_from(arg_types@, ret_type)
                &&& spec_dynamic_call(arg_types@, spec_value_views(args@)) == Ok::<
                    Seq<ArgValueModel>,
                    FfiError,
                >(spec_arg_views(call.args@))
            },
            Err(e) => spec_dynamic_call(arg_types@, spec_value_views(args@)) == Err::<
                Seq<ArgValueModel>,
                FfiError,
            >(e),
        },
{
    if args.len() != arg_types.len() {
        return Err(FfiError::ArgumentCountMismatch);
    }
    match CallInterface::new(arg_types, ret_type) {
        Ok(interface) => interface.call(fn_ptr, args),
        Err(e) => Err(e),
    }
}

/// Once an argument cannot be converted, the conversion of every longer
/// list of arguments fails the same way.
pub proof fn lemma_convert_args_fails(
    arg_types: Seq<CType>,
    args: Seq<HostValueModel>,
    k: nat,
    n: nat,
)
    requires
        k <= n,
        spec_convert_args(arg_types, args, k) is Err,
    ensures
        spec_convert_args(arg_types, args, n) == spec_convert_args(arg_types, args, k),
    decreases n,
{
    if k < n {
        lemma_convert_args_fails(arg_types, args, k, (n - 1) as nat);
    }
}

impl PendingCall {
    /// Ends the call, which the host has made once: turns its raw result
    /// into a host value.
    pub fn finish(self, mem: &Memory, raw: u64) -> (r: Result<HostValue, FfiError>)
        requires
            mem.wf(),
        ensures
            match r {
                Ok(v) => spec_convert_return(mem, self.interface.spec_ret_type(), raw) == Ok::<
                    HostValueModel,
                    FfiError,
                >(v@),
                Err(e) => spec_convert_return(mem, self.interface.spec_ret_type(), raw) == Err::<
                    HostValueModel,
                    FfiError,
                >(e),
            },
    {
        call_and_convert(mem, self.interface.ret_type(), raw)
    }
}

} // verus!
